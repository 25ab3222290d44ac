//! The one-shot primary-key diff: a session built and drained in one call,
//! with full dataset snapshots in the result.

use vstd::prelude::*;
use crate::engine::{
    CsvDifferInternal, RowClass, is_pk_mode, clamp, is_fields_of, keys_unique, has_duplicate_key,
};
use crate::parse::{csv_ok, csv_table, resolved_headers, resolved_rows, header_map_spec};
use crate::types::{DiffError, DiffResult};
use crate::utils::{seq_has, record_to_fields};

verus! {

/// The result rows of one dataset, presented as header/value pairs.
pub open spec fn snapshot_ok(snap: Seq<Vec<(String, String)>>, headers: Seq<Seq<char>>, rows: Seq<
    Seq<Seq<char>>,
>) -> bool {
    &&& snap.len() == rows.len()
    &&& forall|i: int| 0 <= i < snap.len() ==> is_fields_of((#[trigger] snap[i])@, headers, rows[i])
}

/// Builds the header/value snapshot of a dataset's rows.
pub fn snapshot_rows(rows: &Vec<Vec<String>>, headers: &Vec<String>) -> (r: Vec<Vec<(String, String)>>)
    ensures
        snapshot_ok(r@, headers.deep_view(), rows.deep_view()),
{
    let mut r: Vec<Vec<(String, String)>> = Vec::new();
    let mut i: usize = 0;
    while i < rows.len()
        invariant
            i <= rows@.len(),
            r@.len() == i,
            forall|k: int|
                0 <= k < i ==> is_fields_of((#[trigger] r@[k])@, headers.deep_view(),
                    rows.deep_view()[k]),
        decreases rows@.len() - i,
    {
        proof {
            assert(rows.deep_view()[i as int] == rows@[i as int].deep_view());
        }
        r.push(record_to_fields(&rows[i], headers));
        i = i + 1;
    }
    r
}

/// Diffs two raw texts in primary-key mode: parse, validate the key columns,
/// index both sides by key, and classify every row.  The result is a
/// full-range chunk of a well-formed session over the two texts, with full
/// row snapshots attached.
pub fn diff_csv_primary_key_internal(source_csv: &str, target_csv: &str, key_columns: Vec<String>,
    case_sensitive: bool, ignore_whitespace: bool, ignore_empty_vs_null: bool,
    excluded_columns: Vec<String>, has_headers: bool) -> (r: Result<DiffResult, DiffError>)
    ensures
        (r is Err && r->Err_0 is Parse) <==> !(csv_ok(source_csv@) && csv_ok(target_csv@)),
        r is Err && r->Err_0 is KeyColumnNotFound ==> (
        r->Err_0 matches DiffError::KeyColumnNotFound { column, in_target } && seq_has(
            key_columns.deep_view(),
            column@,
        ) && !seq_has(
            (if in_target {
                resolved_headers(csv_table(target_csv@), has_headers)
            } else {
                resolved_headers(csv_table(source_csv@), has_headers)
            }),
            column@,
        )),
        r is Err && r->Err_0 is DuplicateKey ==> (
        r->Err_0 matches DiffError::DuplicateKey { key, in_target } && has_duplicate_key(
            resolved_rows(
                csv_table(if in_target {
                    target_csv@
                } else {
                    source_csv@
                }),
                has_headers,
            ),
            header_map_spec(
                resolved_headers(
                    csv_table(if in_target {
                        target_csv@
                    } else {
                        source_csv@
                    }),
                    has_headers,
                ),
            ),
            key_columns.deep_view(),
            case_sensitive,
            ignore_whitespace,
            ignore_empty_vs_null,
            key@,
        )),
        r is Ok ==> (forall|t: int|
            0 <= t < key_columns.deep_view().len() ==> seq_has(
                resolved_headers(csv_table(source_csv@), has_headers),
                #[trigger] key_columns.deep_view()[t],
            ) && seq_has(
                resolved_headers(csv_table(target_csv@), has_headers),
                key_columns.deep_view()[t],
            )),
        (csv_ok(source_csv@) && csv_ok(target_csv@) && (exists|t: int|
            0 <= t < key_columns.deep_view().len() && !(seq_has(
                resolved_headers(csv_table(source_csv@), has_headers),
                #[trigger] key_columns.deep_view()[t],
            ) && seq_has(
                resolved_headers(csv_table(target_csv@), has_headers),
                key_columns.deep_view()[t],
            )))) ==> r is Err && r->Err_0 is KeyColumnNotFound,
        ({
            let sh = resolved_headers(csv_table(source_csv@), has_headers);
            let th = resolved_headers(csv_table(target_csv@), has_headers);
            let sr = resolved_rows(csv_table(source_csv@), has_headers);
            let tr = resolved_rows(csv_table(target_csv@), has_headers);
            (csv_ok(source_csv@) && csv_ok(target_csv@) && (forall|t: int|
                0 <= t < key_columns.deep_view().len() ==> seq_has(
                    sh,
                    #[trigger] key_columns.deep_view()[t],
                ) && seq_has(th, key_columns.deep_view()[t])) && keys_unique(
                sr,
                header_map_spec(sh),
                key_columns.deep_view(),
                case_sensitive,
                ignore_whitespace,
                ignore_empty_vs_null,
            ) && keys_unique(
                tr,
                header_map_spec(th),
                key_columns.deep_view(),
                case_sensitive,
                ignore_whitespace,
                ignore_empty_vs_null,
            )) ==> r is Ok
        }),
        r is Ok ==> (exists|d: CsvDifferInternal|
            {
                let res = r->Ok_0;
                &&& (#[trigger] d.wf())
                &&& d.is_pk()
                &&& d.case_sensitive == case_sensitive
                &&& d.ignore_whitespace == ignore_whitespace
                &&& d.ignore_empty_vs_null == ignore_empty_vs_null
                &&& d.key_columns.deep_view() == key_columns.deep_view()
                &&& d.excluded_columns.deep_view() == excluded_columns.deep_view()
                &&& d.source.headers.deep_view() == resolved_headers(
                    csv_table(source_csv@),
                    has_headers,
                )
                &&& d.source.rows.deep_view() == resolved_rows(csv_table(source_csv@), has_headers)
                &&& d.target.headers.deep_view() == resolved_headers(
                    csv_table(target_csv@),
                    has_headers,
                )
                &&& d.target.rows.deep_view() == resolved_rows(csv_table(target_csv@), has_headers)
                &&& d.source.header_map@ == header_map_spec(d.source.headers.deep_view())
                &&& d.target.header_map@ == header_map_spec(d.target.headers.deep_view())
                &&& res.added@.len() == d.count_class(RowClass::Added, 0, d.n_t())
                &&& res.modified@.len() == d.count_class(RowClass::Modified, 0, d.n_t())
                &&& res.unchanged@.len() == d.count_class(RowClass::Unchanged, 0, d.n_t())
                &&& res.removed@.len() == d.count_removed(0, d.n_s())
                &&& forall|k: int|
                    0 <= k < res.added@.len() ==> d.pk_added_entry_ok(
                        #[trigger] res.added@[k],
                        0,
                        d.n_t(),
                        k,
                    )
                &&& forall|k: int|
                    0 <= k < res.modified@.len() ==> d.pk_modified_entry_ok(
                        #[trigger] res.modified@[k],
                        0,
                        d.n_t(),
                        k,
                    )
                &&& forall|k: int|
                    0 <= k < res.unchanged@.len() ==> d.pk_unchanged_entry_ok(
                        #[trigger] res.unchanged@[k],
                        0,
                        d.n_t(),
                        k,
                    )
                &&& forall|k: int|
                    0 <= k < res.removed@.len() ==> d.pk_removed_entry_ok(
                        #[trigger] res.removed@[k],
                        k,
                    )
            }),
        r is Ok ==> ({
            let res = r->Ok_0;
            &&& res.mode@ == "primary-key"@
            &&& snapshot_ok(res.source.rows@, resolved_headers(csv_table(source_csv@), has_headers),
                resolved_rows(csv_table(source_csv@), has_headers))
            &&& snapshot_ok(res.target.rows@, resolved_headers(csv_table(target_csv@), has_headers),
                resolved_rows(csv_table(target_csv@), has_headers))
        }),
{
    let mode = "primary-key".to_owned();
    proof {
        reveal_strlit("primary-key");
        assert(is_pk_mode("primary-key"@));
    }
    let differ = match CsvDifferInternal::new(source_csv, target_csv, key_columns, case_sensitive,
        ignore_whitespace, ignore_empty_vs_null, excluded_columns, has_headers, mode) {
        Ok(d) => d,
        Err(e) => {
            return Err(e);
        },
    };
    let n_t = differ.target.rows.len();
    let mut result = differ.diff_primary_key_chunk(0, n_t);
    proof {
        assert(clamp(0, differ.n_t()) == 0);
        assert(clamp(0 + n_t as int, differ.n_t()) == differ.n_t());
    }
    result.source.rows = snapshot_rows(&differ.source.rows, &differ.source.headers);
    result.target.rows = snapshot_rows(&differ.target.rows, &differ.target.headers);
    proof {
        assert(differ.wf() && differ.is_pk());
    }
    Ok(result)
}

} // verus!
