use vstd::prelude::*;
use vstd::hash_map::StringHashMap;

use crate::csv_output::{csv_line, csv_row, joined, texts};
use crate::text::{count_text, decimal_text, is_digit, lemma_decimal_text_digits, push_char, push_str};
use crate::values::{Judge, compute_diff, difference_ok, judge_of, values_match, within_ok};
use crate::types::{ColumnMapping, ComparisonConfig, SummaryRow};

verus! {

/// A CSV record: its fields, in order.
pub type Record = Seq<Seq<char>>;

/// The records of a table, field by field.
pub open spec fn table(records: Seq<Vec<String>>) -> Seq<Record> {
    records.map_values(|r: Vec<String>| texts(r@))
}

/// The field at `i`, or the empty text when the record is shorter.
pub open spec fn field_or_empty(rec: Record, i: int) -> Seq<char> {
    if 0 <= i < rec.len() {
        rec[i]
    } else {
        Seq::empty()
    }
}

/// The position of the first header equal to `name`.
pub open spec fn first_position(headers: Seq<Seq<char>>, name: Seq<char>) -> Option<int> {
    if exists|i: int| 0 <= i < headers.len() && headers[i] == name {
        Some(
            choose|i: int|
                0 <= i < headers.len() && headers[i] == name && forall|j: int|
                    0 <= j < i ==> headers[j] != name,
        )
    } else {
        None
    }
}

/// Finds the position of the first header equal to `name`.
pub fn find_col_index(headers: &[String], name: &str) -> (r: Option<usize>)
    ensures
        match r {
            Some(i) => i < headers@.len() && headers@[i as int]@ == name@ && forall|j: int|
                0 <= j < i ==> headers@[j]@ != name@,
            None => forall|j: int| 0 <= j < headers@.len() ==> headers@[j]@ != name@,
        },
        r matches Some(i) ==> first_position(texts(headers@), name@) == Some(i as int),
        r is None ==> first_position(texts(headers@), name@) is None,
{
    let wanted = name.to_owned();
    let n = headers.len();
    for i in 0..n
        invariant
            n == headers@.len(),
            wanted@ == name@,
            forall|j: int| 0 <= j < i ==> headers@[j]@ != name@,
    {
        if headers[i] == wanted {
            proof {
                let h = texts(headers@);
                assert(h[i as int] == name@);
                let k = choose|k: int|
                    0 <= k < h.len() && h[k] == name@ && forall|j: int| 0 <= j < k ==> h[j] != name@;
                if k < i {
                    assert(h[k] == headers@[k]@);
                } else if k > i {
                    assert(h[i as int] != name@);
                }
            }
            return Some(i);
        }
    }
    proof {
        let h = texts(headers@);
        assert forall|j: int| 0 <= j < h.len() implies h[j] != name@ by {
            assert(h[j] == headers@[j]@);
        }
    }
    None
}

/// The key of an MJS record: its first field, or the empty text.
pub open spec fn record_key(rec: Record) -> Seq<char> {
    field_or_empty(rec, 0)
}

/// Each key that begins a record, mapped to the position of the last record
/// that it begins. Records with no field are left out.
pub open spec fn key_positions(records: Seq<Record>) -> Map<Seq<char>, usize>
    decreases records.len(),
{
    if records.len() == 0 {
        Map::empty()
    } else {
        let m = key_positions(records.drop_last());
        let r = records.last();
        if r.len() > 0 {
            m.insert(r[0], (records.len() - 1) as usize)
        } else {
            m
        }
    }
}

pub proof fn lemma_key_positions_bound(records: Seq<Record>)
    requires
        records.len() <= usize::MAX,
    ensures
        forall|k: Seq<char>| #[trigger]
            key_positions(records).contains_key(k) ==> key_positions(records)[k]
                < records.len() && records[key_positions(records)[k] as int].len() > 0
                && records[key_positions(records)[k] as int][0] == k,
    decreases records.len(),
{
    if records.len() > 0 {
        let prev = records.drop_last();
        lemma_key_positions_bound(prev);
        assert forall|k: Seq<char>| #[trigger]
            key_positions(records).contains_key(k) implies key_positions(records)[k]
                < records.len() && records[key_positions(records)[k] as int].len() > 0
                && records[key_positions(records)[k] as int][0] == k by {
            if records.last().len() > 0 && k == records.last()[0] {
                assert(key_positions(records)[k] == records.len() - 1);
                assert(records[records.len() - 1] == records.last());
            } else {
                assert(key_positions(records)[k] == key_positions(prev)[k]);
                assert(key_positions(prev).contains_key(k));
                assert(records[key_positions(prev)[k] as int] == prev[key_positions(prev)[k] as int]);
            }
        }
    }
}

/// The MJS records, found by their key.
pub struct MjsIndex<'a> {
    records: &'a [Vec<String>],
    positions: StringHashMap<usize>,
}

impl<'a> MjsIndex<'a> {
    /// The records the index was built from.
    pub closed spec fn source(&self) -> Seq<Vec<String>> {
        self.records@
    }

    /// Each key mapped to the position of the record that it finds.
    pub closed spec fn positions(&self) -> Map<Seq<char>, usize> {
        self.positions@
    }

    #[verifier::type_invariant]
    closed spec fn well_formed(&self) -> bool {
        &&& self.positions@ == key_positions(table(self.records@))
        &&& self.records@.len() <= usize::MAX
    }

    /// The number of distinct keys.
    pub fn len(&self) -> (r: usize)
        ensures
            r == self.positions().len(),
    {
        self.positions.len()
    }

    pub fn is_empty(&self) -> (r: bool)
        ensures
            r == (self.positions().len() == 0),
    {
        proof {
            use_type_invariant(self);
            lemma_key_positions_finite(table(self.records@));
        }
        self.positions.len() == 0
    }

    /// The last record whose first field is `key`.
    pub fn get(&self, key: &str) -> (r: Option<&'a Vec<String>>)
        ensures
            self.positions() == key_positions(table(self.source())),
            match r {
                Some(rec) => self.positions().contains_key(key@) && *rec
                    == self.source()[self.positions()[key@] as int],
                None => !self.positions().contains_key(key@),
            },
    {
        proof {
            use_type_invariant(self);
            lemma_key_positions_bound(table(self.records@));
        }
        match self.positions.get(key) {
            Some(p) => Some(&self.records[*p]),
            None => None,
        }
    }
}

pub proof fn lemma_key_positions_finite(records: Seq<Record>)
    ensures
        key_positions(records).dom().finite(),
    decreases records.len(),
{
    if records.len() > 0 {
        lemma_key_positions_finite(records.drop_last());
    }
}

/// Indexes the MJS records by their first field; of records with the same
/// key, the last one is kept.
pub fn build_mjs_index<'a>(mjs_records: &'a [Vec<String>]) -> (r: MjsIndex<'a>)
    ensures
        r.source() == mjs_records@,
        r.positions() == key_positions(table(mjs_records@)),
{
    let mut positions: StringHashMap<usize> = StringHashMap::new();
    let n = mjs_records.len();
    for i in 0..n
        invariant
            n == mjs_records@.len(),
            positions@ == key_positions(table(mjs_records@.take(i as int))),
    {
        let ghost before = table(mjs_records@.take(i as int));
        assert(table(mjs_records@.take(i + 1)).drop_last() =~= before);
        let rec = &mjs_records[i];
        if rec.len() > 0 {
            positions.insert(rec[0].clone(), i);
        }
        assert(table(mjs_records@.take(i + 1)).last() == texts(rec@));
    }
    assert(mjs_records@.take(n as int) =~= mjs_records@);
    MjsIndex { records: mjs_records, positions }
}


/// A compared column: its settings and its position in each file.
pub struct ColInfo<'a> {
    pub mapping: &'a ColumnMapping,
    pub mjs_idx: usize,
    pub other_idx: usize,
}

/// A compared column, as values: its name (the MJS header), its tolerance
/// and its position in each file.
pub struct ColSpec {
    pub header: Seq<char>,
    pub tolerance: i32,
    pub mjs_idx: usize,
    pub other_idx: usize,
}

impl<'a> View for ColInfo<'a> {
    type V = ColSpec;

    open spec fn view(&self) -> ColSpec {
        ColSpec {
            header: self.mapping.mjs_header@,
            tolerance: self.mapping.tolerance,
            mjs_idx: self.mjs_idx,
            other_idx: self.other_idx,
        }
    }
}

pub open spec fn col_specs(cols: Seq<ColInfo>) -> Seq<ColSpec> {
    cols.map_values(|c: ColInfo| c@)
}

/// One line of the detail file: the key, the two values and their
/// difference.
#[derive(Debug)]
pub struct DetailRow {
    pub key: String,
    pub mjs_val: String,
    pub other_val: String,
    pub diff: String,
}

/// A detail line, as texts.
pub struct DetailLine {
    pub key: Seq<char>,
    pub mjs_val: Seq<char>,
    pub other_val: Seq<char>,
    pub diff: Seq<char>,
}

impl View for DetailRow {
    type V = DetailLine;

    open spec fn view(&self) -> DetailLine {
        DetailLine {
            key: self.key@,
            mjs_val: self.mjs_val@,
            other_val: self.other_val@,
            diff: self.diff@,
        }
    }
}

pub open spec fn lines(v: Seq<DetailRow>) -> Seq<DetailLine> {
    v.map_values(|r: DetailRow| r@)
}

/// What comparing two tables gives: per compared column, the number of
/// mismatching pairs and the detail lines; and the number of records found
/// on one side only.
#[derive(Debug)]
pub struct ComparisonStats {
    pub mismatch_counts: Vec<usize>,
    pub detail_entries: Vec<Vec<DetailRow>>,
    pub mjs_only_count: usize,
    pub other_only_count: usize,
}

/// Whether the key of an other-system record finds an MJS record.
pub open spec fn finds(mjs: Seq<Record>, o: Record, kidx: int) -> bool {
    key_positions(mjs).contains_key(field_or_empty(o, kidx))
}

/// The MJS value that an other-system record is compared with.
pub open spec fn partner_value(mjs: Seq<Record>, o: Record, kidx: int, col: ColSpec) -> Seq<char> {
    field_or_empty(
        mjs[key_positions(mjs)[field_or_empty(o, kidx)] as int],
        col.mjs_idx as int,
    )
}

/// Whether a record found on both sides disagrees in a column.
pub open spec fn disagrees(mjs: Seq<Record>, o: Record, kidx: int, col: ColSpec, j: Judge) -> bool {
    finds(mjs, o, kidx) && !(j.agrees)(
        partner_value(mjs, o, kidx, col),
        field_or_empty(o, col.other_idx as int),
        col.tolerance as int,
    )
}

/// The detail lines that one other-system record gives in a column: a line
/// with both values and their difference when the record is found and
/// disagrees, none when it is found and agrees, and a line with its own
/// value only when it is not found.
pub open spec fn other_record_lines(mjs: Seq<Record>, o: Record, kidx: int, col: ColSpec, j: Judge) -> Seq<
    DetailLine,
> {
    let key = field_or_empty(o, kidx);
    let ov = field_or_empty(o, col.other_idx as int);
    if finds(mjs, o, kidx) {
        let mv = partner_value(mjs, o, kidx, col);
        if (j.agrees)(mv, ov, col.tolerance as int) {
            Seq::empty()
        } else {
            seq![DetailLine { key, mjs_val: mv, other_val: ov, diff: (j.diffs)(mv, ov) }]
        }
    } else {
        seq![DetailLine { key, mjs_val: Seq::empty(), other_val: ov, diff: Seq::empty() }]
    }
}

pub open spec fn other_side_lines(mjs: Seq<Record>, others: Seq<Record>, kidx: int, col: ColSpec, j: Judge) -> Seq<
    DetailLine,
>
    decreases others.len(),
{
    if others.len() == 0 {
        Seq::empty()
    } else {
        other_side_lines(mjs, others.drop_last(), kidx, col, j) + other_record_lines(
            mjs,
            others.last(),
            kidx,
            col, j,
        )
    }
}

/// The number of other-system records that are found and disagree in a column.
pub open spec fn mismatch_count(mjs: Seq<Record>, others: Seq<Record>, kidx: int, col: ColSpec, j: Judge) -> nat
    decreases others.len(),
{
    if others.len() == 0 {
        0
    } else {
        mismatch_count(mjs, others.drop_last(), kidx, col, j) + if disagrees(
            mjs,
            others.last(),
            kidx,
            col, j,
        ) {
            1nat
        } else {
            0nat
        }
    }
}

/// The number of other-system records whose key finds no MJS record.
pub open spec fn unmatched_count(mjs: Seq<Record>, others: Seq<Record>, kidx: int) -> nat
    decreases others.len(),
{
    if others.len() == 0 {
        0
    } else {
        unmatched_count(mjs, others.drop_last(), kidx) + if finds(mjs, others.last(), kidx) {
            0nat
        } else {
            1nat
        }
    }
}

/// The keys of the other-system records that find an MJS record.
pub open spec fn matched_keys(mjs: Seq<Record>, others: Seq<Record>, kidx: int) -> Set<Seq<char>>
    decreases others.len(),
{
    if others.len() == 0 {
        Set::empty()
    } else {
        let s = matched_keys(mjs, others.drop_last(), kidx);
        if finds(mjs, others.last(), kidx) {
            s.insert(field_or_empty(others.last(), kidx))
        } else {
            s
        }
    }
}

/// The detail lines of the MJS records whose key no other-system record
/// matched: the key and the MJS value.
pub open spec fn mjs_side_lines(mjs: Seq<Record>, matched: Set<Seq<char>>, col: ColSpec) -> Seq<
    DetailLine,
>
    decreases mjs.len(),
{
    if mjs.len() == 0 {
        Seq::empty()
    } else {
        let r = mjs.last();
        mjs_side_lines(mjs.drop_last(), matched, col) + if matched.contains(record_key(r)) {
            Seq::empty()
        } else {
            seq![
                DetailLine {
                    key: record_key(r),
                    mjs_val: field_or_empty(r, col.mjs_idx as int),
                    other_val: Seq::empty(),
                    diff: Seq::empty(),
                },
            ]
        }
    }
}

/// The number of MJS records whose key no other-system record matched.
pub open spec fn mjs_only_count(mjs: Seq<Record>, matched: Set<Seq<char>>) -> nat
    decreases mjs.len(),
{
    if mjs.len() == 0 {
        0
    } else {
        mjs_only_count(mjs.drop_last(), matched) + if matched.contains(record_key(mjs.last())) {
            0nat
        } else {
            1nat
        }
    }
}

/// All detail lines of a column: those of the other-system records in
/// their order, then those of the unmatched MJS records in their order.
pub open spec fn column_lines(mjs: Seq<Record>, others: Seq<Record>, kidx: int, col: ColSpec, j: Judge) -> Seq<
    DetailLine,
> {
    other_side_lines(mjs, others, kidx, col, j) + mjs_side_lines(
        mjs,
        matched_keys(mjs, others, kidx),
        col,
    )
}

/// The field at `i`, or the empty text.
pub fn field_text(rec: &Vec<String>, i: usize) -> (s: String)
    ensures
        s@ == field_or_empty(texts(rec@), i as int),
{
    if i < rec.len() {
        rec[i].clone()
    } else {
        String::new()
    }
}

/// The detail lines and the mismatch count of one column.
fn column_details<W: Fn(&str, &str, i32) -> Option<bool>, N: Fn(&str, &str) -> Option<String>>(
    mjs_index: &MjsIndex,
    mjs_records: &[Vec<String>],
    other_records: &[Vec<String>],
    other_key_idx: usize,
    col: &ColInfo,
    matched: &StringHashMap<bool>,
    within: &W,
    difference: &N,
) -> (r: (Vec<DetailRow>, usize))
    requires
        within_ok(*within),
        difference_ok(*difference),
        mjs_index.source() == mjs_records@,
        mjs_index.positions() == key_positions(table(mjs_records@)),
        matched@.dom() == matched_keys(table(mjs_records@), table(other_records@), other_key_idx as int),
    ensures
        lines(r.0@) == column_lines(table(mjs_records@), table(other_records@), other_key_idx as int, col@, judge_of(*within, *difference)),
        r.1 == mismatch_count(table(mjs_records@), table(other_records@), other_key_idx as int, col@, judge_of(*within, *difference)),
{
    let ghost mjs = table(mjs_records@);
    let ghost others = table(other_records@);
    let ghost kidx = other_key_idx as int;
    let mut out: Vec<DetailRow> = Vec::new();
    let mut count: usize = 0;
    let n = other_records.len();
    let m = mjs_records.len();
    for i in 0..n
        invariant
            n == other_records@.len(),
            m == mjs_records@.len(),
            others == table(other_records@),
            mjs == table(mjs_records@),
            kidx == other_key_idx as int,
            mjs_index.source() == mjs_records@,
            mjs_index.positions() == key_positions(mjs),
            within_ok(*within),
            difference_ok(*difference),
            lines(out@) == other_side_lines(mjs, others.take(i as int), kidx, col@, judge_of(*within, *difference)),
            count == mismatch_count(mjs, others.take(i as int), kidx, col@, judge_of(*within, *difference)),
            count <= i,
    {
        let rec = &other_records[i];
        let ghost o = others[i as int];
        assert(o == texts(rec@));
        assert(others.take(i + 1).drop_last() =~= others.take(i as int));
        assert(others.take(i + 1).last() == o);
        let key = field_text(rec, other_key_idx);
        let ov = field_text(rec, col.other_idx);
        match mjs_index.get(key.as_str()) {
            Some(mrec) => {
                let mv = field_text(mrec, col.mjs_idx);
                proof {
                    lemma_key_positions_bound(mjs);
                }
                assert(texts(mrec@) == mjs[key_positions(mjs)[key@] as int]);
                if !values_match(mv.as_str(), ov.as_str(), col.mapping.tolerance, within) {
                    let d = compute_diff(mv.as_str(), ov.as_str(), difference);
                    out.push(DetailRow { key, mjs_val: mv, other_val: ov, diff: d });
                    count = count + 1;
                }
            },
            None => {
                out.push(DetailRow { key, mjs_val: String::new(), other_val: ov, diff: String::new() });
            },
        }
        assert(lines(out@) =~= other_side_lines(mjs, others.take(i + 1), kidx, col@, judge_of(*within, *difference)));
    }
    assert(others.take(n as int) =~= others);
    let ghost matched_set = matched_keys(mjs, others, kidx);
    let ghost other_part = lines(out@);
    for j in 0..m
        invariant
            m == mjs_records@.len(),
            mjs == table(mjs_records@),
            matched@.dom() == matched_set,
            lines(out@) == other_part + mjs_side_lines(mjs.take(j as int), matched_set, col@),
    {
        let rec = &mjs_records[j];
        assert(mjs[j as int] == texts(rec@));
        assert(mjs.take(j + 1).drop_last() =~= mjs.take(j as int));
        assert(mjs.take(j + 1).last() == mjs[j as int]);
        let key = field_text(rec, 0);
        let ghost prev = lines(out@);
        assert(key@ == record_key(mjs.take(j + 1).last()));
        if !matched.contains_key(key.as_str()) {
            let mv = field_text(rec, col.mjs_idx);
            out.push(DetailRow { key, mjs_val: mv, other_val: String::new(), diff: String::new() });
            assert(lines(out@) =~= prev.push(out@.last()@));
        } else {
            assert(matched_set.contains(record_key(mjs.take(j + 1).last())));
        }
        assert(lines(out@) =~= other_part + mjs_side_lines(mjs.take(j + 1), matched_set, col@));
    }
    assert(mjs.take(m as int) =~= mjs);
    (out, count)
}


/// Compares the other-system records with the MJS records by key, column by
/// column.
///
/// For each compared column, the mismatch count is the number of
/// other-system records whose key finds an MJS record (the last with that
/// first field) and whose value does not agree with it within the column's
/// tolerance (`values_match`); the detail lines are given by
/// `column_lines`, with the differences of `compute_diff`. The other-only
/// count is the number of other-system records whose key finds no MJS
/// record; the MJS-only count is the number of MJS records whose key was
/// matched by no other-system record.
///
/// `within` and `difference` compare two values that read as numbers (the
/// application reads them as doubles); each may be asked anything, and
/// answers the same for the same texts.
pub fn compare_records<W: Fn(&str, &str, i32) -> Option<bool>, N: Fn(&str, &str) -> Option<String>>(
    mjs_index: &MjsIndex,
    mjs_records: &[Vec<String>],
    other_records: &[Vec<String>],
    other_key_idx: usize,
    compare_cols: &[ColInfo],
    within: &W,
    difference: &N,
) -> (stats: ComparisonStats)
    requires
        within_ok(*within),
        difference_ok(*difference),
        mjs_index.source() == mjs_records@,
    ensures
        stats.mismatch_counts@.len() == compare_cols@.len(),
        stats.detail_entries@.len() == compare_cols@.len(),
        forall|ci: int|
            0 <= ci < compare_cols@.len() ==> stats.mismatch_counts@[ci] == mismatch_count(
                table(mjs_records@),
                table(other_records@),
                other_key_idx as int,
                #[trigger] compare_cols@[ci]@, judge_of(*within, *difference),
            ),
        forall|ci: int|
            0 <= ci < compare_cols@.len() ==> lines(stats.detail_entries@[ci]@) == column_lines(
                table(mjs_records@),
                table(other_records@),
                other_key_idx as int,
                #[trigger] compare_cols@[ci]@, judge_of(*within, *difference),
            ),
        stats.other_only_count == unmatched_count(
            table(mjs_records@),
            table(other_records@),
            other_key_idx as int,
        ),
        stats.mjs_only_count == mjs_only_count(
            table(mjs_records@),
            matched_keys(table(mjs_records@), table(other_records@), other_key_idx as int),
        ),
{
    proof {
        use_type_invariant(mjs_index);
    }
    let ghost mjs = table(mjs_records@);
    let ghost others = table(other_records@);
    let ghost kidx = other_key_idx as int;
    let n = other_records.len();
    let m = mjs_records.len();
    let mut matched: StringHashMap<bool> = StringHashMap::new();
    let mut other_only_count: usize = 0;
    for i in 0..n
        invariant
            n == other_records@.len(),
            others == table(other_records@),
            mjs == table(mjs_records@),
            kidx == other_key_idx as int,
            mjs_index.source() == mjs_records@,
            mjs_index.positions() == key_positions(mjs),
            matched@.dom() =~= matched_keys(mjs, others.take(i as int), kidx),
            other_only_count == unmatched_count(mjs, others.take(i as int), kidx),
            other_only_count <= i,
    {
        let rec = &other_records[i];
        assert(others[i as int] == texts(rec@));
        assert(others.take(i + 1).drop_last() =~= others.take(i as int));
        assert(others.take(i + 1).last() == others[i as int]);
        let key = field_text(rec, other_key_idx);
        match mjs_index.get(key.as_str()) {
            Some(_) => {
                matched.insert(key, true);
            },
            None => {
                other_only_count = other_only_count + 1;
            },
        }
    }
    assert(others.take(n as int) =~= others);
    let ghost matched_set = matched_keys(mjs, others, kidx);
    let mut mjs_only_count: usize = 0;
    for j in 0..m
        invariant
            m == mjs_records@.len(),
            mjs == table(mjs_records@),
            matched@.dom() == matched_set,
            mjs_only_count == crate::comparison::mjs_only_count(mjs.take(j as int), matched_set),
            mjs_only_count <= j,
    {
        let rec = &mjs_records[j];
        assert(mjs[j as int] == texts(rec@));
        assert(mjs.take(j + 1).drop_last() =~= mjs.take(j as int));
        assert(mjs.take(j + 1).last() == mjs[j as int]);
        let key = field_text(rec, 0);
        if !matched.contains_key(key.as_str()) {
            mjs_only_count = mjs_only_count + 1;
        }
    }
    assert(mjs.take(m as int) =~= mjs);
    let col_count = compare_cols.len();
    let mut mismatch_counts: Vec<usize> = Vec::new();
    let mut detail_entries: Vec<Vec<DetailRow>> = Vec::new();
    for ci in 0..col_count
        invariant
            col_count == compare_cols@.len(),
            others == table(other_records@),
            mjs == table(mjs_records@),
            kidx == other_key_idx as int,
            mjs_index.source() == mjs_records@,
            mjs_index.positions() == key_positions(mjs),
            matched@.dom() == matched_keys(mjs, others, kidx),
            within_ok(*within),
            difference_ok(*difference),
            mismatch_counts@.len() == ci,
            detail_entries@.len() == ci,
            forall|k: int|
                0 <= k < ci ==> mismatch_counts@[k] == mismatch_count(
                    mjs,
                    others,
                    kidx,
                    #[trigger] compare_cols@[k]@, judge_of(*within, *difference),
                ),
            forall|k: int|
                0 <= k < ci ==> lines(detail_entries@[k]@) == column_lines(
                    mjs,
                    others,
                    kidx,
                    #[trigger] compare_cols@[k]@, judge_of(*within, *difference),
                ),
    {
        let (col_lines, count) = column_details(
            mjs_index,
            mjs_records,
            other_records,
            other_key_idx,
            &compare_cols[ci],
            &matched,
            within,
            difference,
        );
        mismatch_counts.push(count);
        detail_entries.push(col_lines);
    }
    ComparisonStats { mismatch_counts, detail_entries, mjs_only_count, other_only_count }
}


pub open spec fn counts(v: Seq<usize>) -> Seq<nat> {
    v.map_values(|c: usize| c as nat)
}

/// The result shown for a column: `〇` when nothing disagrees, else the count.
pub open spec fn summary_result(n: nat) -> Seq<char> {
    if n == 0 {
        "〇"@
    } else {
        decimal_text(n)
    }
}

/// The summary lines of the compared columns, in order.
pub open spec fn summary_body(cols: Seq<ColSpec>, counts: Seq<nat>) -> Seq<char>
    decreases cols.len(),
{
    if cols.len() == 0 {
        Seq::empty()
    } else {
        summary_body(cols.drop_last(), counts) + csv_line(
            seq![cols.last().header, summary_result(counts[cols.len() - 1])],
        )
    }
}

/// The summary file: a heading line, a line per compared column, and the
/// counts of records found on one side only.
pub open spec fn summary_text(
    cols: Seq<ColSpec>,
    counts: Seq<nat>,
    mjs_only: nat,
    other_only: nat,
) -> Seq<char> {
    "項目名,結果\n"@ + summary_body(cols, counts) + csv_line(
        seq!["MJS側のみ存在"@, decimal_text(mjs_only)],
    ) + csv_line(seq!["他社側のみ存在"@, decimal_text(other_only)])
}

fn pair(a: String, b: String) -> (v: Vec<String>)
    ensures
        texts(v@) == seq![a@, b@],
{
    let mut v = Vec::new();
    v.push(a);
    v.push(b);
    assert(texts(v@) =~= seq![a@, b@]);
    v
}

/// Builds the summary file and the summary rows.
pub fn build_summary_csv(compare_cols: &[ColInfo], stats: &ComparisonStats) -> (r: (
    String,
    Vec<SummaryRow>,
))
    requires
        stats.mismatch_counts@.len() >= compare_cols@.len(),
    ensures
        r.0@ == summary_text(
            col_specs(compare_cols@),
            counts(stats.mismatch_counts@),
            stats.mjs_only_count as nat,
            stats.other_only_count as nat,
        ),
        r.1@.len() == compare_cols@.len(),
        forall|i: int|
            0 <= i < compare_cols@.len() ==> (#[trigger] r.1@[i]).item_name@
                == compare_cols@[i].mapping.mjs_header@ && r.1@[i].result@ == summary_result(
                stats.mismatch_counts@[i] as nat,
            ),
{
    let mut content = "項目名,結果\n".to_owned();
    let mut rows: Vec<SummaryRow> = Vec::new();
    let n = compare_cols.len();
    for ci in 0..n
        invariant
            n == compare_cols@.len(),
            stats.mismatch_counts@.len() >= n,
            content@ == "項目名,結果\n"@ + summary_body(col_specs(compare_cols@).take(ci as int), counts(stats.mismatch_counts@)),
            rows@.len() == ci,
            forall|i: int|
                0 <= i < ci ==> (#[trigger] rows@[i]).item_name@ == compare_cols@[i].mapping.mjs_header@
                    && rows@[i].result@ == summary_result(stats.mismatch_counts@[i] as nat),
    {
        let count = stats.mismatch_counts[ci];
        let result = if count == 0 {
            "〇".to_owned()
        } else {
            count_text(count)
        };
        let header = compare_cols[ci].mapping.mjs_header.clone();
        let line = csv_row(&pair(header.clone(), result.clone()));
        push_str(&mut content, line.as_str());
        rows.push(SummaryRow { item_name: header, result });
        assert(col_specs(compare_cols@).take(ci + 1).drop_last() =~= col_specs(compare_cols@).take(ci as int));
        assert(content@ =~= "項目名,結果\n"@ + summary_body(col_specs(compare_cols@).take(ci + 1), counts(stats.mismatch_counts@)));
    }
    assert(col_specs(compare_cols@).take(n as int) =~= col_specs(compare_cols@));
    let mjs_only = csv_row(&pair("MJS側のみ存在".to_owned(), count_text(stats.mjs_only_count)));
    push_str(&mut content, mjs_only.as_str());
    let other_only = csv_row(&pair("他社側のみ存在".to_owned(), count_text(stats.other_only_count)));
    push_str(&mut content, other_only.as_str());
    assert(content@ =~= summary_text(
        col_specs(compare_cols@),
        counts(stats.mismatch_counts@),
        stats.mjs_only_count as nat,
        stats.other_only_count as nat,
    ));
    (content, rows)
}

/// The lines of the rows of a detail section.
pub open spec fn detail_rows_text(rows: Seq<DetailLine>) -> Seq<char>
    decreases rows.len(),
{
    if rows.len() == 0 {
        Seq::empty()
    } else {
        let r = rows.last();
        detail_rows_text(rows.drop_last()) + csv_line(seq![r.key, r.mjs_val, r.other_val, r.diff])
    }
}

/// A section of the detail file: the column's name, a heading line, and a
/// line per detail row.
pub open spec fn detail_section(header: Seq<char>, key_header: Seq<char>, rows: Seq<DetailLine>) -> Seq<
    char,
> {
    "項目名："@ + header + seq!['\n'] + csv_line(
        seq![key_header, "MJS値"@, "他社値"@, "差異"@],
    ) + detail_rows_text(rows)
}

/// The sections of the columns that have detail rows, in column order.
pub open spec fn detail_sections(
    key_header: Seq<char>,
    cols: Seq<ColSpec>,
    entries: Seq<Seq<DetailLine>>,
) -> Seq<Seq<char>>
    decreases cols.len(),
{
    if cols.len() == 0 {
        Seq::empty()
    } else {
        let prev = detail_sections(key_header, cols.drop_last(), entries);
        let rows = entries[cols.len() - 1];
        if rows.len() == 0 {
            prev
        } else {
            prev.push(detail_section(cols.last().header, key_header, rows))
        }
    }
}

/// The detail file: the sections, separated by an empty line.
pub open spec fn detail_text(key_header: Seq<char>, cols: Seq<ColSpec>, entries: Seq<Seq<DetailLine>>) -> Seq<
    char,
> {
    joined(detail_sections(key_header, cols, entries), '\n')
}

pub open spec fn entry_lines(entries: Seq<Vec<DetailRow>>) -> Seq<Seq<DetailLine>> {
    entries.map_values(|v: Vec<DetailRow>| lines(v@))
}

fn four(a: String, b: String, c: String, d: String) -> (v: Vec<String>)
    ensures
        texts(v@) == seq![a@, b@, c@, d@],
{
    let mut v = Vec::new();
    v.push(a);
    v.push(b);
    v.push(c);
    v.push(d);
    assert(texts(v@) =~= seq![a@, b@, c@, d@]);
    v
}

/// Builds the detail file (see `detail_text`).
pub fn build_detail_csv(key_header: &str, compare_cols: &[ColInfo], detail_entries: &[Vec<DetailRow>]) -> (r:
    String)
    requires
        detail_entries@.len() >= compare_cols@.len(),
    ensures
        r@ == detail_text(key_header@, col_specs(compare_cols@), entry_lines(detail_entries@)),
{
    let ghost entries = entry_lines(detail_entries@);
    let mut content = String::new();
    let mut first_section = true;
    let n = compare_cols.len();
    for ci in 0..n
        invariant
            n == compare_cols@.len(),
            detail_entries@.len() >= n,
            entries == entry_lines(detail_entries@),
            content@ == joined(detail_sections(key_header@, col_specs(compare_cols@).take(ci as int), entries), '\n'),
            first_section == (detail_sections(key_header@, col_specs(compare_cols@).take(ci as int), entries).len() == 0),
    {
        let ghost prev = detail_sections(key_header@, col_specs(compare_cols@).take(ci as int), entries);
        assert(col_specs(compare_cols@).take(ci + 1).drop_last() =~= col_specs(compare_cols@).take(ci as int));
        assert(entries[ci as int] == lines(detail_entries@[ci as int]@));
        let rows = &detail_entries[ci];
        if rows.len() > 0 {
            let mut section = "項目名：".to_owned();
            push_str(&mut section, compare_cols[ci].mapping.mjs_header.as_str());
            push_char(&mut section, '\n');
            let heading = csv_row(
                &four(key_header.to_owned(), "MJS値".to_owned(), "他社値".to_owned(), "差異".to_owned()),
            );
            push_str(&mut section, heading.as_str());
            let m = rows.len();
            for j in 0..m
                invariant
                    m == rows@.len(),
                    section@ == "項目名："@ + compare_cols@[ci as int].mapping.mjs_header@ + seq!['\n']
                        + csv_line(seq![key_header@, "MJS値"@, "他社値"@, "差異"@])
                        + detail_rows_text(lines(rows@).take(j as int)),
            {
                let row = &rows[j];
                let line = csv_row(
                    &four(row.key.clone(), row.mjs_val.clone(), row.other_val.clone(), row.diff.clone()),
                );
                push_str(&mut section, line.as_str());
                assert(lines(rows@).take(j + 1).drop_last() =~= lines(rows@).take(j as int));
                assert(lines(rows@).take(j + 1).last() == rows@[j as int]@);
            }
            assert(lines(rows@).take(m as int) =~= lines(rows@));
            if !first_section {
                push_char(&mut content, '\n');
            }
            first_section = false;
            push_str(&mut content, section.as_str());
            let ghost now = detail_sections(key_header@, col_specs(compare_cols@).take(ci + 1), entries);
            assert(now == prev.push(section@));
            assert(now.drop_last() =~= prev);
            assert(content@ =~= joined(now, '\n'));
        }
    }
    assert(col_specs(compare_cols@).take(n as int) =~= col_specs(compare_cols@));
    content
}


pub open spec fn key_column_missing(header: Seq<char>) -> Seq<char> {
    "他社システムCSVにキー列「"@ + header + "」が見つかりません"@
}

pub open spec fn mjs_column_missing(header: Seq<char>) -> Seq<char> {
    "MJSシステムCSVに列「"@ + header + "」が見つかりません"@
}

pub open spec fn other_column_missing(header: Seq<char>) -> Seq<char> {
    "他社システムCSVに列「"@ + header + "」が見つかりません"@
}

/// Finds, for the compared columns among `columns[1..upto]` (the first
/// column is the key), their positions in both header rows; fails on the
/// first compared column whose header is missing, naming it.
pub open spec fn resolve_columns(
    columns: Seq<ColumnMapping>,
    upto: int,
    mjs_headers: Seq<Seq<char>>,
    other_headers: Seq<Seq<char>>,
) -> Result<Seq<ColSpec>, Seq<char>>
    decreases upto,
{
    if upto <= 1 {
        Ok(Seq::empty())
    } else {
        resolve_step(
            resolve_columns(columns, upto - 1, mjs_headers, other_headers),
            columns[upto - 1],
            mjs_headers,
            other_headers,
        )
    }
}

/// One step of `resolve_columns`: a column added to what was resolved.
pub open spec fn resolve_step(
    prev: Result<Seq<ColSpec>, Seq<char>>,
    c: ColumnMapping,
    mjs_headers: Seq<Seq<char>>,
    other_headers: Seq<Seq<char>>,
) -> Result<Seq<ColSpec>, Seq<char>> {
    match prev {
        Err(e) => Err(e),
        Ok(v) => if !c.is_compare {
            Ok(v)
        } else {
            match first_position(mjs_headers, c.mjs_header@) {
                None => Err(mjs_column_missing(c.mjs_header@)),
                Some(a) => match first_position(other_headers, c.other_header@) {
                    None => Err(other_column_missing(c.other_header@)),
                    Some(b) => Ok(
                        v.push(
                            ColSpec {
                                header: c.mjs_header@,
                                tolerance: c.tolerance,
                                mjs_idx: a as usize,
                                other_idx: b as usize,
                            },
                        ),
                    ),
                },
            }
        },
    }
}

/// Why a comparison cannot be made, if it cannot: the key column or a
/// compared column is missing from a header row.
pub open spec fn run_error(
    columns: Seq<ColumnMapping>,
    mjs_headers: Seq<Seq<char>>,
    other_headers: Seq<Seq<char>>,
) -> Option<Seq<char>> {
    let key = columns[0].other_header@;
    match first_position(other_headers, key) {
        None => Some(key_column_missing(key)),
        Some(_) => match resolve_columns(columns, columns.len() as int, mjs_headers, other_headers) {
            Err(e) => Some(e),
            Ok(_) => None,
        },
    }
}

pub open spec fn expected_counts(mjs: Seq<Record>, others: Seq<Record>, kidx: int, cols: Seq<ColSpec>, j: Judge) -> Seq<
    nat,
> {
    Seq::new(cols.len(), |i: int| mismatch_count(mjs, others, kidx, cols[i], j))
}

pub open spec fn expected_entries(
    mjs: Seq<Record>,
    others: Seq<Record>,
    kidx: int,
    cols: Seq<ColSpec>, j: Judge,
) -> Seq<Seq<DetailLine>> {
    Seq::new(cols.len(), |i: int| column_lines(mjs, others, kidx, cols[i], j))
}

pub open spec fn summary_file_name(timestamp: Seq<char>) -> Seq<char> {
    "サマリー比較_"@ + timestamp + ".csv"@
}

pub open spec fn detail_file_name(timestamp: Seq<char>) -> Seq<char> {
    "明細比較_"@ + timestamp + ".csv"@
}

/// What a comparison produces: the summary rows, the texts of the summary
/// and detail files, and the names of those files.
#[derive(Debug)]
pub struct ComparisonReport {
    pub summary: Vec<SummaryRow>,
    pub summary_csv: String,
    pub detail_csv: String,
    pub summary_file_name: String,
    pub detail_file_name: String,
}

/// A comparison report as values: the summary rows (item name and result),
/// the summary and detail texts, and the two file names.
pub struct ReportValue {
    pub summary: Seq<(Seq<char>, Seq<char>)>,
    pub summary_csv: Seq<char>,
    pub detail_csv: Seq<char>,
    pub summary_file_name: Seq<char>,
    pub detail_file_name: Seq<char>,
}

pub open spec fn report_value(rep: ComparisonReport) -> ReportValue {
    ReportValue {
        summary: rep.summary@.map_values(|r: SummaryRow| (r.item_name@, r.result@)),
        summary_csv: rep.summary_csv@,
        detail_csv: rep.detail_csv@,
        summary_file_name: rep.summary_file_name@,
        detail_file_name: rep.detail_file_name@,
    }
}

pub open spec fn run_result_value(r: Result<ComparisonReport, String>) -> Result<ReportValue, Seq<char>> {
    match r {
        Ok(rep) => Ok(report_value(rep)),
        Err(e) => Err(e@),
    }
}

/// What a comparison run gives, from the column settings, the timestamp,
/// both header rows and both tables, values judged by `j`: the error of
/// `run_error` when there is one, else the report of the comparison keyed
/// by the first column's other-system header.
pub open spec fn run_outcome(
    columns: Seq<ColumnMapping>,
    timestamp: Seq<char>,
    mjs_headers: Seq<Seq<char>>,
    mjs: Seq<Record>,
    other_headers: Seq<Seq<char>>,
    others: Seq<Record>,
    j: Judge,
) -> Result<ReportValue, Seq<char>> {
    match run_error(columns, mjs_headers, other_headers) {
        Some(e) => Err(e),
        None => {
            let kidx = first_position(other_headers, columns[0].other_header@)->0;
            let cols = resolve_columns(columns, columns.len() as int, mjs_headers, other_headers)->Ok_0;
            let n = expected_counts(mjs, others, kidx, cols, j);
            Ok(
                ReportValue {
                    summary: Seq::new(cols.len(), |i: int| (cols[i].header, summary_result(n[i]))),
                    summary_csv: summary_text(
                        cols,
                        n,
                        mjs_only_count(mjs, matched_keys(mjs, others, kidx)),
                        unmatched_count(mjs, others, kidx),
                    ),
                    detail_csv: detail_text(mjs_headers[0], cols, expected_entries(mjs, others, kidx, cols, j)),
                    summary_file_name: summary_file_name(timestamp),
                    detail_file_name: detail_file_name(timestamp),
                },
            )
        },
    }
}

fn message(prefix: &str, middle: &str, suffix: &str) -> (r: String)
    ensures
        r@ == prefix@ + middle@ + suffix@,
{
    let mut r = prefix.to_owned();
    push_str(&mut r, middle);
    push_str(&mut r, suffix);
    r
}

/// Once the resolution fails, it fails with the same message whatever
/// columns follow.
pub proof fn lemma_resolve_keeps_error(
    columns: Seq<ColumnMapping>,
    k: int,
    upto: int,
    mjs_headers: Seq<Seq<char>>,
    other_headers: Seq<Seq<char>>,
)
    requires
        k <= upto,
        resolve_columns(columns, k, mjs_headers, other_headers) is Err,
    ensures
        resolve_columns(columns, upto, mjs_headers, other_headers) == resolve_columns(
            columns,
            k,
            mjs_headers,
            other_headers,
        ),
    decreases upto - k,
{
    if k < upto {
        lemma_resolve_keeps_error(columns, k, upto - 1, mjs_headers, other_headers);
    }
}

/// Resolves the compared columns (see `resolve_columns`).
#[verifier::rlimit(40)]
fn resolve_compare_cols<'a>(
    columns: &'a Vec<ColumnMapping>,
    mjs_headers: &Vec<String>,
    other_headers: &Vec<String>,
) -> (r: Result<Vec<ColInfo<'a>>, String>)
    ensures
        match resolve_columns(columns@, columns@.len() as int, texts(mjs_headers@), texts(other_headers@)) {
            Ok(cs) => r matches Ok(v) && col_specs(v@) == cs,
            Err(e) => r matches Err(m) && m@ == e,
        },
{
    let ghost mh = texts(mjs_headers@);
    let ghost oh = texts(other_headers@);
    let mut infos: Vec<ColInfo<'a>> = Vec::new();
    let n = columns.len();
    if n == 0 {
        return Ok(infos);
    }
    assert(col_specs(infos@) =~= Seq::<ColSpec>::empty());
    for k in 1..n
        invariant
            n == columns@.len(),
            mh == texts(mjs_headers@),
            oh == texts(other_headers@),
            resolve_columns(columns@, k as int, mh, oh) == Ok::<Seq<ColSpec>, Seq<char>>(col_specs(infos@)),
    {
        let c = &columns[k];
        assert(resolve_columns(columns@, k + 1, mh, oh) == resolve_step(
            resolve_columns(columns@, k as int, mh, oh),
            columns@[k as int],
            mh,
            oh,
        ));
        if c.is_compare {
            match find_col_index(mjs_headers.as_slice(), c.mjs_header.as_str()) {
                None => {
                    proof {
                        lemma_resolve_keeps_error(columns@, k + 1, columns@.len() as int, mh, oh);
                    }
                    return Err(message("MJSシステムCSVに列「", c.mjs_header.as_str(), "」が見つかりません"));
                },
                Some(a) => match find_col_index(other_headers.as_slice(), c.other_header.as_str()) {
                    None => {
                        proof {
                            lemma_resolve_keeps_error(columns@, k + 1, columns@.len() as int, mh, oh);
                        }
                        return Err(
                            message("他社システムCSVに列「", c.other_header.as_str(), "」が見つかりません"),
                        );
                    },
                    Some(b) => {
                        let ghost before = infos@;
                        infos.push(ColInfo { mapping: c, mjs_idx: a, other_idx: b });
                        assert(col_specs(infos@) =~= col_specs(before).push(infos@.last()@));
                    },
                },
            }
        }
    }
    Ok(infos)
}


/// Compares two tables read from CSV files as `config` says, and builds
/// the summary and the detail files.
///
/// The first column's other-system header names the key column of the
/// other file; the MJS file is keyed by its first field. The comparison
/// fails when the key column or a compared column is missing (see
/// `run_error`); otherwise the report holds the summary and detail texts of
/// the comparison of the records (see `compare_records`), the detail file
/// heading its key column with the first MJS header, and the file names
/// made from the timestamp.
pub fn run<W: Fn(&str, &str, i32) -> Option<bool>, N: Fn(&str, &str) -> Option<String>>(
    config: &ComparisonConfig,
    mjs_headers: &Vec<String>,
    mjs_records: &Vec<Vec<String>>,
    other_headers: &Vec<String>,
    other_records: &Vec<Vec<String>>,
    within: &W,
    difference: &N,
) -> (r: Result<ComparisonReport, String>)
    requires
        within_ok(*within),
        difference_ok(*difference),
        config.columns@.len() >= 1,
        mjs_headers@.len() >= 1,
    ensures
        r is Err <==> run_error(config.columns@, texts(mjs_headers@), texts(other_headers@)) is Some,
        r matches Err(e) ==> run_error(config.columns@, texts(mjs_headers@), texts(other_headers@))
            == Some(e@),
        r matches Ok(rep) ==> {
            let mjs = table(mjs_records@);
            let others = table(other_records@);
            let kidx = first_position(texts(other_headers@), config.columns@[0].other_header@)->0;
            let cols = resolve_columns(
                config.columns@,
                config.columns@.len() as int,
                texts(mjs_headers@),
                texts(other_headers@),
            )->Ok_0;
            let n = expected_counts(mjs, others, kidx, cols, judge_of(*within, *difference));
            &&& rep.summary_csv@ == summary_text(
                cols,
                n,
                mjs_only_count(mjs, matched_keys(mjs, others, kidx)),
                unmatched_count(mjs, others, kidx),
            )
            &&& rep.summary@.len() == cols.len()
            &&& forall|i: int|
                0 <= i < cols.len() ==> (#[trigger] rep.summary@[i]).item_name@ == cols[i].header
                    && rep.summary@[i].result@ == summary_result(n[i])
            &&& rep.detail_csv@ == detail_text(
                mjs_headers@[0]@,
                cols,
                expected_entries(mjs, others, kidx, cols, judge_of(*within, *difference)),
            )
            &&& rep.summary_file_name@ == summary_file_name(config.timestamp@)
            &&& rep.detail_file_name@ == detail_file_name(config.timestamp@)
        },
        run_result_value(r) == run_outcome(
            config.columns@,
            config.timestamp@,
            texts(mjs_headers@),
            table(mjs_records@),
            texts(other_headers@),
            table(other_records@),
            judge_of(*within, *difference),
        ),
{
    let key_header = &config.columns[0].other_header;
    let kidx = match find_col_index(other_headers.as_slice(), key_header.as_str()) {
        Some(i) => i,
        None => {
            return Err(message("他社システムCSVにキー列「", key_header.as_str(), "」が見つかりません"));
        },
    };
    let compare_cols = match resolve_compare_cols(&config.columns, mjs_headers, other_headers) {
        Ok(v) => v,
        Err(e) => {
            return Err(e);
        },
    };
    let ghost mjs = table(mjs_records@);
    let ghost others = table(other_records@);
    let ghost cols = col_specs(compare_cols@);
    let mjs_index = build_mjs_index(mjs_records.as_slice());
    let stats = compare_records(
        &mjs_index,
        mjs_records.as_slice(),
        other_records.as_slice(),
        kidx,
        compare_cols.as_slice(),
        within,
        difference,
    );
    let (summary_csv, summary) = build_summary_csv(compare_cols.as_slice(), &stats);
    let detail_csv = build_detail_csv(
        mjs_headers[0].as_str(),
        compare_cols.as_slice(),
        stats.detail_entries.as_slice(),
    );
    assert(counts(stats.mismatch_counts@) =~= expected_counts(mjs, others, kidx as int, cols, judge_of(*within, *difference)));
    assert(entry_lines(stats.detail_entries@) =~= expected_entries(mjs, others, kidx as int, cols, judge_of(*within, *difference)));
    let summary_file_name = message("サマリー比較_", config.timestamp.as_str(), ".csv");
    let detail_file_name = message("明細比較_", config.timestamp.as_str(), ".csv");
    let rep = ComparisonReport { summary, summary_csv, detail_csv, summary_file_name, detail_file_name };
    proof {
        let n = expected_counts(mjs, others, kidx as int, cols, judge_of(*within, *difference));
        assert(report_value(rep).summary =~= Seq::new(
            cols.len(),
            |i: int| (cols[i].header, summary_result(n[i])),
        ));
    }
    Ok(rep)
}


/// A column shows `〇` exactly when nothing disagrees in it.
pub proof fn law_summary_shows_circle_iff_no_mismatch(n: nat)
    ensures
        summary_result(n) == "〇"@ <==> n == 0,
{
    reveal_strlit("〇");
    if n > 0 {
        lemma_decimal_text_digits(n);
        assert(is_digit(decimal_text(n)[0]));
    }
}

/// The MJS index holds exactly the first fields of the records that have a
/// field.
pub proof fn law_index_keys(records: Seq<Record>)
    ensures
        forall|k: Seq<char>|
            #[trigger] key_positions(records).contains_key(k) <==> exists|i: int|
                0 <= i < records.len() && records[i].len() > 0 && records[i][0] == k,
    decreases records.len(),
{
    if records.len() > 0 {
        let prev = records.drop_last();
        law_index_keys(prev);
        assert forall|k: Seq<char>|
            #[trigger] key_positions(records).contains_key(k) <==> exists|i: int|
                0 <= i < records.len() && records[i].len() > 0 && records[i][0] == k by {
            if key_positions(prev).contains_key(k) {
                let i = choose|i: int| 0 <= i < prev.len() && prev[i].len() > 0 && prev[i][0] == k;
                assert(records[i] == prev[i]);
            }
            if exists|i: int| 0 <= i < records.len() && records[i].len() > 0 && records[i][0] == k {
                let i = choose|i: int| 0 <= i < records.len() && records[i].len() > 0 && records[i][0] == k;
                if i < prev.len() {
                    assert(prev[i] == records[i]);
                }
            }
        }
    }
}

pub proof fn lemma_other_side_count(mjs: Seq<Record>, others: Seq<Record>, kidx: int, col: ColSpec, j: Judge)
    ensures
        other_side_lines(mjs, others, kidx, col, j).len() == mismatch_count(mjs, others, kidx, col, j)
            + unmatched_count(mjs, others, kidx),
    decreases others.len(),
{
    if others.len() > 0 {
        lemma_other_side_count(mjs, others.drop_last(), kidx, col, j);
    }
}

pub proof fn lemma_mjs_side_count(mjs: Seq<Record>, matched: Set<Seq<char>>, col: ColSpec)
    ensures
        mjs_side_lines(mjs, matched, col).len() == mjs_only_count(mjs, matched),
    decreases mjs.len(),
{
    if mjs.len() > 0 {
        lemma_mjs_side_count(mjs.drop_last(), matched, col);
    }
}

/// Every column lists one detail line per disagreeing record and one per
/// record found on one side only.
pub proof fn law_detail_lines_count(mjs: Seq<Record>, others: Seq<Record>, kidx: int, col: ColSpec, j: Judge)
    ensures
        column_lines(mjs, others, kidx, col, j).len() == mismatch_count(mjs, others, kidx, col, j)
            + unmatched_count(mjs, others, kidx) + mjs_only_count(
            mjs,
            matched_keys(mjs, others, kidx),
        ),
{
    lemma_other_side_count(mjs, others, kidx, col, j);
    lemma_mjs_side_count(mjs, matched_keys(mjs, others, kidx), col);
}

pub proof fn lemma_sections_empty(key_header: Seq<char>, cols: Seq<ColSpec>, entries: Seq<Seq<DetailLine>>)
    requires
        entries.len() >= cols.len(),
    ensures
        detail_sections(key_header, cols, entries).len() == 0 <==> forall|i: int|
            0 <= i < cols.len() ==> (#[trigger] entries[i]).len() == 0,
        forall|i: int|
            0 <= i < detail_sections(key_header, cols, entries).len() ==> (#[trigger] detail_sections(
                key_header,
                cols,
                entries,
            )[i]).len() > 0,
    decreases cols.len(),
{
    reveal_strlit("項目名：");
    if cols.len() > 0 {
        lemma_sections_empty(key_header, cols.drop_last(), entries);
    }
}

pub proof fn lemma_joined_empty(parts: Seq<Seq<char>>, sep: char)
    requires
        forall|i: int| 0 <= i < parts.len() ==> (#[trigger] parts[i]).len() > 0,
    ensures
        joined(parts, sep).len() == 0 <==> parts.len() == 0,
    decreases parts.len(),
{
    if parts.len() > 1 {
        lemma_joined_empty(parts.drop_last(), sep);
    }
}

/// The detail file is empty exactly when no column has a detail line.
pub proof fn law_detail_empty_iff_no_lines(
    key_header: Seq<char>,
    cols: Seq<ColSpec>,
    entries: Seq<Seq<DetailLine>>,
)
    requires
        entries.len() >= cols.len(),
    ensures
        detail_text(key_header, cols, entries).len() == 0 <==> forall|i: int|
            0 <= i < cols.len() ==> (#[trigger] entries[i]).len() == 0,
{
    lemma_sections_empty(key_header, cols, entries);
    lemma_joined_empty(detail_sections(key_header, cols, entries), '\n');
}


/// The records of a table all have a field, and no two share a key.
pub open spec fn distinct_keys(t: Seq<Record>) -> bool {
    &&& forall|i: int| 0 <= i < t.len() ==> (#[trigger] t[i]).len() > 0
    &&& forall|i: int, j: int|
        0 <= i < t.len() && 0 <= j < t.len() && i != j ==> (#[trigger] t[i])[0] != (#[trigger] t[j])[0]
}

pub proof fn lemma_distinct_positions(t: Seq<Record>)
    requires
        distinct_keys(t),
        t.len() <= usize::MAX,
    ensures
        forall|i: int|
            0 <= i < t.len() ==> key_positions(t).contains_key(#[trigger] t[i][0]) && key_positions(
                t,
            )[t[i][0]] == i,
    decreases t.len(),
{
    if t.len() > 0 {
        let prev = t.drop_last();
        assert(distinct_keys(prev)) by {
            assert forall|i: int, j: int|
                0 <= i < prev.len() && 0 <= j < prev.len() && i != j implies (#[trigger] prev[i])[0]
                    != (#[trigger] prev[j])[0] by {
                assert(prev[i] == t[i] && prev[j] == t[j]);
            }
            assert forall|i: int| 0 <= i < prev.len() implies (#[trigger] prev[i]).len() > 0 by {
                assert(prev[i] == t[i]);
            }
        }
        lemma_distinct_positions(prev);
        assert forall|i: int|
            0 <= i < t.len() implies key_positions(t).contains_key(#[trigger] t[i][0]) && key_positions(
                t,
            )[t[i][0]] == i by {
            assert(t.last() == t[t.len() - 1]);
            if i < t.len() - 1 {
                assert(prev[i] == t[i]);
                assert(t[i][0] != t[t.len() - 1][0]);
            }
        }
    }
}

/// Every value in a column agrees with itself.
pub open spec fn column_self_agrees(t: Seq<Record>, col: ColSpec, j: Judge) -> bool {
    forall|i: int|
        0 <= i < t.len() ==> (j.agrees)(
            field_or_empty(#[trigger] t[i], col.mjs_idx as int),
            field_or_empty(t[i], col.mjs_idx as int),
            col.tolerance as int,
        )
}

pub proof fn lemma_self_prefix(t: Seq<Record>, k: int, col: ColSpec, j: Judge)
    requires
        distinct_keys(t),
        t.len() <= usize::MAX,
        0 <= k <= t.len(),
        col.mjs_idx == col.other_idx,
        column_self_agrees(t, col, j),
    ensures
        mismatch_count(t, t.take(k), 0, col, j) == 0,
        unmatched_count(t, t.take(k), 0) == 0,
        forall|i: int| 0 <= i < k ==> matched_keys(t, t.take(k), 0).contains(#[trigger] t[i][0]),
    decreases k,
{
    if k > 0 {
        lemma_self_prefix(t, k - 1, col, j);
        lemma_distinct_positions(t);
        let o = t.take(k);
        assert(o.drop_last() =~= t.take(k - 1));
        assert(o.last() == t[k - 1]);
        assert(field_or_empty(t[k - 1], 0) == t[k - 1][0]);
        assert(key_positions(t)[t[k - 1][0]] == k - 1);
        assert(finds(t, o.last(), 0));
        assert(partner_value(t, o.last(), 0, col) == field_or_empty(t[k - 1], col.mjs_idx as int));
        assert(!disagrees(t, o.last(), 0, col, j));
    }
}

pub proof fn lemma_all_matched(t: Seq<Record>, m: int, matched: Set<Seq<char>>)
    requires
        0 <= m <= t.len(),
        forall|i: int| 0 <= i < t.len() ==> (#[trigger] t[i]).len() > 0,
        forall|i: int| 0 <= i < t.len() ==> matched.contains(#[trigger] t[i][0]),
    ensures
        mjs_only_count(t.take(m), matched) == 0,
    decreases m,
{
    if m > 0 {
        lemma_all_matched(t, m - 1, matched);
        assert(t.take(m).drop_last() =~= t.take(m - 1));
        assert(t.take(m).last() == t[m - 1]);
        assert(record_key(t[m - 1]) == t[m - 1][0]);
    }
}

/// A table compared with itself, keyed by its first field, finds no
/// disagreement and no record on one side only, when its keys are distinct
/// and every compared value agrees with itself.
pub proof fn law_self_comparison_is_clean(t: Seq<Record>, col: ColSpec, j: Judge)
    requires
        distinct_keys(t),
        t.len() <= usize::MAX,
        col.mjs_idx == col.other_idx,
        column_self_agrees(t, col, j),
    ensures
        mismatch_count(t, t, 0, col, j) == 0,
        unmatched_count(t, t, 0) == 0,
        mjs_only_count(t, matched_keys(t, t, 0)) == 0,
        column_lines(t, t, 0, col, j).len() == 0,
{
    lemma_self_prefix(t, t.len() as int, col, j);
    assert(t.take(t.len() as int) =~= t);
    lemma_all_matched(t, t.len() as int, matched_keys(t, t, 0));
    law_detail_lines_count(t, t, 0, col, j);
}


/// Two column lists that agree on the key column's other-system header and,
/// column by column after it, on whether the column is compared and, for
/// compared columns, on both headers and the tolerance.
pub open spec fn same_effective_columns(c1: Seq<ColumnMapping>, c2: Seq<ColumnMapping>) -> bool {
    &&& c1.len() == c2.len()
    &&& c1.len() >= 1
    &&& c1[0].other_header@ == c2[0].other_header@
    &&& forall|i: int|
        1 <= i < c1.len() ==> (#[trigger] c1[i]).is_compare == (#[trigger] c2[i]).is_compare && (
        c1[i].is_compare ==> c1[i].mjs_header@ == c2[i].mjs_header@ && c1[i].other_header@
            == c2[i].other_header@ && c1[i].tolerance == c2[i].tolerance)
}

pub proof fn lemma_resolve_same(
    c1: Seq<ColumnMapping>,
    c2: Seq<ColumnMapping>,
    upto: int,
    mjs_headers: Seq<Seq<char>>,
    other_headers: Seq<Seq<char>>,
)
    requires
        same_effective_columns(c1, c2),
        upto <= c1.len(),
    ensures
        resolve_columns(c1, upto, mjs_headers, other_headers) == resolve_columns(
            c2,
            upto,
            mjs_headers,
            other_headers,
        ),
    decreases upto,
{
    if upto > 1 {
        lemma_resolve_same(c1, c2, upto - 1, mjs_headers, other_headers);
        assert(c1[upto - 1].is_compare == c2[upto - 1].is_compare);
    }
}

/// A comparison run depends only on the key column's other-system header,
/// on which later columns are compared, and on those columns' headers and
/// tolerances: the key column's other settings and the settings of columns
/// that are not compared change neither the error, nor the columns compared,
/// nor the key column, nor the whole outcome of the run.
pub proof fn law_run_ignores_unused_settings(
    c1: Seq<ColumnMapping>,
    c2: Seq<ColumnMapping>,
    timestamp: Seq<char>,
    mjs_headers: Seq<Seq<char>>,
    mjs: Seq<Record>,
    other_headers: Seq<Seq<char>>,
    others: Seq<Record>,
    j: Judge,
)
    requires
        same_effective_columns(c1, c2),
    ensures
        run_error(c1, mjs_headers, other_headers) == run_error(c2, mjs_headers, other_headers),
        resolve_columns(c1, c1.len() as int, mjs_headers, other_headers) == resolve_columns(
            c2,
            c2.len() as int,
            mjs_headers,
            other_headers,
        ),
        first_position(other_headers, c1[0].other_header@) == first_position(
            other_headers,
            c2[0].other_header@,
        ),
        run_outcome(c1, timestamp, mjs_headers, mjs, other_headers, others, j) == run_outcome(
            c2,
            timestamp,
            mjs_headers,
            mjs,
            other_headers,
            others,
            j,
        ),
{
    lemma_resolve_same(c1, c2, c1.len() as int, mjs_headers, other_headers);
}

proof fn lemma_first_occurrence(headers: Seq<Seq<char>>, name: Seq<char>, i: int)
    requires
        0 <= i < headers.len(),
        headers[i] == name,
    ensures
        exists|k: int|
            0 <= k < headers.len() && headers[k] == name && forall|j: int| 0 <= j < k ==> headers[j] != name,
    decreases i,
{
    if exists|j: int| 0 <= j < i && headers[j] == name {
        let j = choose|j: int| 0 <= j < i && headers[j] == name;
        lemma_first_occurrence(headers, name, j);
    } else {
        assert(forall|j: int| 0 <= j < i ==> headers[j] != name);
    }
}

/// A header that is found is at its position in the header row.
pub proof fn lemma_first_position(headers: Seq<Seq<char>>, name: Seq<char>)
    ensures
        first_position(headers, name) matches Some(a) ==> 0 <= a < headers.len() && headers[a] == name,
{
    if exists|i: int| 0 <= i < headers.len() && headers[i] == name {
        let i = choose|i: int| 0 <= i < headers.len() && headers[i] == name;
        lemma_first_occurrence(headers, name, i);
    }
}

/// The columns that are compared: those after the key column (up to
/// `upto`) whose `is_compare` is set, in configuration order.
pub open spec fn compared_columns(columns: Seq<ColumnMapping>, upto: int) -> Seq<ColumnMapping> {
    columns.subrange(1, upto).filter(|c: ColumnMapping| c.is_compare)
}

/// A resolved column stands for the column `c`: it carries `c`'s MJS
/// header and tolerance, and the positions of `c`'s two headers.
pub open spec fn resolves(v: ColSpec, c: ColumnMapping, mjs_headers: Seq<Seq<char>>, other_headers: Seq<Seq<char>>) -> bool {
    &&& v.header == c.mjs_header@
    &&& v.tolerance == c.tolerance
    &&& v.mjs_idx < mjs_headers.len()
    &&& mjs_headers[v.mjs_idx as int] == c.mjs_header@
    &&& v.other_idx < other_headers.len()
    &&& other_headers[v.other_idx as int] == c.other_header@
}

/// Whether both headers of a column are found.
pub open spec fn headers_found(c: ColumnMapping, mjs_headers: Seq<Seq<char>>, other_headers: Seq<Seq<char>>) -> bool {
    first_position(mjs_headers, c.mjs_header@) is Some && first_position(other_headers, c.other_header@) is Some
}

proof fn lemma_compared_step(columns: Seq<ColumnMapping>, upto: int)
    requires
        2 <= upto <= columns.len(),
    ensures
        compared_columns(columns, upto) == if columns[upto - 1].is_compare {
            compared_columns(columns, upto - 1).push(columns[upto - 1])
        } else {
            compared_columns(columns, upto - 1)
        },
{
    let pred = |c: ColumnMapping| c.is_compare;
    assert(columns.subrange(1, upto) =~= columns.subrange(1, upto - 1).push(columns[upto - 1]));
    columns.subrange(1, upto - 1).lemma_filter_push(columns[upto - 1], pred);
}

proof fn lemma_compared_none(columns: Seq<ColumnMapping>)
    requires
        1 <= columns.len(),
    ensures
        compared_columns(columns, 1) == Seq::<ColumnMapping>::empty(),
{
    assert(columns.subrange(1, 1) =~= Seq::<ColumnMapping>::empty());
    reveal_with_fuel(Seq::filter, 1);
}

/// Resolving gives one resolved column per compared column, in order:
/// the `i`-th resolved column stands for the `i`-th compared column (see
/// `resolves`).
pub proof fn law_resolved_columns_are_the_compared_ones(
    columns: Seq<ColumnMapping>,
    upto: int,
    mjs_headers: Seq<Seq<char>>,
    other_headers: Seq<Seq<char>>,
)
    requires
        1 <= upto <= columns.len(),
        mjs_headers.len() <= usize::MAX,
        other_headers.len() <= usize::MAX,
        resolve_columns(columns, upto, mjs_headers, other_headers) is Ok,
    ensures
        ({
            let v = resolve_columns(columns, upto, mjs_headers, other_headers)->Ok_0;
            let cc = compared_columns(columns, upto);
            &&& v.len() == cc.len()
            &&& forall|i: int| 0 <= i < v.len() ==> resolves(#[trigger] v[i], cc[i], mjs_headers, other_headers)
        }),
    decreases upto,
{
    if upto == 1 {
        lemma_compared_none(columns);
    } else {
        law_resolved_columns_are_the_compared_ones(columns, upto - 1, mjs_headers, other_headers);
        lemma_compared_step(columns, upto);
        let c = columns[upto - 1];
        let pv = resolve_columns(columns, upto - 1, mjs_headers, other_headers)->Ok_0;
        let v = resolve_columns(columns, upto, mjs_headers, other_headers)->Ok_0;
        let prev = compared_columns(columns, upto - 1);
        let cc = compared_columns(columns, upto);
        if c.is_compare {
            lemma_first_position(mjs_headers, c.mjs_header@);
            lemma_first_position(other_headers, c.other_header@);
            assert forall|i: int| 0 <= i < v.len() implies resolves(#[trigger] v[i], cc[i], mjs_headers, other_headers) by {
                if i < pv.len() {
                    assert(v[i] == pv[i]);
                    assert(cc[i] == prev[i]);
                } else {
                    assert(cc[i] == c);
                }
            }
        }
    }
}

/// Resolving succeeds exactly when both headers of every compared column
/// are found.
pub proof fn law_resolving_succeeds_iff_headers_found(
    columns: Seq<ColumnMapping>,
    upto: int,
    mjs_headers: Seq<Seq<char>>,
    other_headers: Seq<Seq<char>>,
)
    requires
        1 <= upto <= columns.len(),
    ensures
        resolve_columns(columns, upto, mjs_headers, other_headers) is Ok <==> forall|i: int|
            0 <= i < compared_columns(columns, upto).len() ==> headers_found(
                #[trigger] compared_columns(columns, upto)[i],
                mjs_headers,
                other_headers,
            ),
    decreases upto,
{
    if upto == 1 {
        lemma_compared_none(columns);
    } else {
        law_resolving_succeeds_iff_headers_found(columns, upto - 1, mjs_headers, other_headers);
        lemma_compared_step(columns, upto);
        let c = columns[upto - 1];
        let prev = compared_columns(columns, upto - 1);
        let cc = compared_columns(columns, upto);
        if c.is_compare {
            if resolve_columns(columns, upto, mjs_headers, other_headers) is Ok {
                assert forall|i: int| 0 <= i < cc.len() implies headers_found(#[trigger] cc[i], mjs_headers, other_headers) by {
                    if i < prev.len() {
                        assert(cc[i] == prev[i]);
                    }
                }
            } else if resolve_columns(columns, upto - 1, mjs_headers, other_headers) is Err {
                let k = choose|i: int| 0 <= i < prev.len() && !headers_found(#[trigger] prev[i], mjs_headers, other_headers);
                assert(cc[k] == prev[k]);
            } else {
                assert(cc[cc.len() - 1] == c);
            }
        }
    }
}

/// Whether `s` ends with `t`.
pub open spec fn ends_with(s: Seq<char>, t: Seq<char>) -> bool {
    s.len() >= t.len() && s.subrange(s.len() - t.len(), s.len() as int) == t
}

/// The last two lines of a summary: the count of MJS records found on the
/// MJS side only, then the count of other-system records found on the
/// other side only.
pub open spec fn one_sided_lines(mjs_only: nat, other_only: nat) -> Seq<char> {
    csv_line(seq!["MJS側のみ存在"@, decimal_text(mjs_only)]) + csv_line(
        seq!["他社側のみ存在"@, decimal_text(other_only)],
    )
}

/// A summary ends with the MJS-only count and then the other-only count,
/// each under its own label.
pub proof fn law_summary_ends_with_one_sided_counts(
    cols: Seq<ColSpec>,
    counts: Seq<nat>,
    mjs_only: nat,
    other_only: nat,
)
    ensures
        ends_with(summary_text(cols, counts, mjs_only, other_only), one_sided_lines(mjs_only, other_only)),
{
    let s = summary_text(cols, counts, mjs_only, other_only);
    let t = one_sided_lines(mjs_only, other_only);
    let head = "項目名,結果\n"@ + summary_body(cols, counts);
    assert(s =~= head + t);
    assert(s.subrange(s.len() - t.len(), s.len() as int) =~= t);
}

proof fn lemma_mjs_only_without_matches(mjs: Seq<Record>)
    ensures
        mjs_only_count(mjs, Set::empty()) == mjs.len(),
    decreases mjs.len(),
{
    if mjs.len() > 0 {
        lemma_mjs_only_without_matches(mjs.drop_last());
    }
}

/// With no other-system records, every MJS record is found on the MJS side
/// only and none on the other side: a successful run's summary ends with
/// the number of MJS records on the MJS-only line and 0 on the other-only
/// line.
pub proof fn law_run_without_other_records(
    columns: Seq<ColumnMapping>,
    timestamp: Seq<char>,
    mjs_headers: Seq<Seq<char>>,
    mjs: Seq<Record>,
    other_headers: Seq<Seq<char>>,
    j: Judge,
)
    ensures
        run_outcome(columns, timestamp, mjs_headers, mjs, other_headers, Seq::empty(), j) matches Ok(
            rep,
        ) ==> ends_with(rep.summary_csv, one_sided_lines(mjs.len(), 0)),
        forall|kidx: int| unmatched_count(mjs, Seq::empty(), kidx) == 0,
        forall|kidx: int| mjs_only_count(mjs, #[trigger] matched_keys(mjs, Seq::empty(), kidx)) == mjs.len(),
{
    lemma_mjs_only_without_matches(mjs);
    assert forall|kidx: int| mjs_only_count(mjs, #[trigger] matched_keys(mjs, Seq::empty(), kidx)) == mjs.len() by {
        assert(matched_keys(mjs, Seq::empty(), kidx) == Set::<Seq<char>>::empty());
    }
    if run_outcome(columns, timestamp, mjs_headers, mjs, other_headers, Seq::empty(), j) is Ok {
        let kidx = first_position(other_headers, columns[0].other_header@)->0;
        let cols = resolve_columns(columns, columns.len() as int, mjs_headers, other_headers)->Ok_0;
        let n = expected_counts(mjs, Seq::empty(), kidx, cols, j);
        assert(matched_keys(mjs, Seq::empty(), kidx) == Set::<Seq<char>>::empty());
        law_summary_ends_with_one_sided_counts(cols, n, mjs.len(), 0);
    }
}

/// The detail text of rows `a` followed by rows `b` is the text of `a`
/// followed by the text of `b`.
pub proof fn law_detail_rows_concatenate(a: Seq<DetailLine>, b: Seq<DetailLine>)
    ensures
        detail_rows_text(a + b) == detail_rows_text(a) + detail_rows_text(b),
    decreases b.len(),
{
    if b.len() == 0 {
        assert(a + b =~= a);
        assert(detail_rows_text(a) + detail_rows_text(b) =~= detail_rows_text(a));
    } else {
        law_detail_rows_concatenate(a, b.drop_last());
        assert((a + b).drop_last() =~= a + b.drop_last());
        assert((a + b).last() == b.last());
        let r = b.last();
        let line = csv_line(seq![r.key, r.mjs_val, r.other_val, r.diff]);
        assert(detail_rows_text(a + b) =~= detail_rows_text(a) + (detail_rows_text(b.drop_last()) + line));
    }
}

/// Every detail row is written, whatever its values: the detail text of
/// rows holds, for each row in order, that row's CSV line, between the
/// text of the rows before it and the text of the rows after it.
pub proof fn law_detail_rows_each_written(rows: Seq<DetailLine>, i: int)
    requires
        0 <= i < rows.len(),
    ensures
        detail_rows_text(rows) == detail_rows_text(rows.take(i)) + csv_line(
            seq![rows[i].key, rows[i].mjs_val, rows[i].other_val, rows[i].diff],
        ) + detail_rows_text(rows.skip(i + 1)),
        detail_rows_text(seq![rows[i]]) == csv_line(
            seq![rows[i].key, rows[i].mjs_val, rows[i].other_val, rows[i].diff],
        ),
{
    let one = seq![rows[i]];
    assert(one.drop_last() =~= Seq::<DetailLine>::empty());
    assert(one.last() == rows[i]);
    assert(detail_rows_text(Seq::<DetailLine>::empty()) == Seq::<char>::empty());
    assert(detail_rows_text(one) =~= csv_line(seq![rows[i].key, rows[i].mjs_val, rows[i].other_val, rows[i].diff]));
    assert(rows =~= rows.take(i) + one + rows.skip(i + 1));
    law_detail_rows_concatenate(rows.take(i) + one, rows.skip(i + 1));
    law_detail_rows_concatenate(rows.take(i), one);
}

} // verus!
