//! The diff session: both datasets parsed and indexed once, then classified
//! in caller-sized chunks.  Primary-key mode keeps a key-to-row map per side;
//! content-match mode keeps a fingerprint index, an inverted value index and
//! the set of still-unmatched target rows.

use vstd::prelude::*;
use crate::parse::{Dataset, parse_csv_internal, build_header_map, csv_ok, csv_table};
use crate::types::{
    DiffChange, DiffError, DiffResult, Difference, AddedRow, RemovedRow, ModifiedRow,
    UnchangedRow, DatasetMetadata,
};
use crate::utils::{
    norm_spec, col_value, seq_has, key_spec, fp_spec, get_row_key, get_row_fingerprint,
    normalize_value_cow, record_to_fields, contains_str,
};
use crate::text::{str_eq, dec_string, lower_of, lowercase, chars_of, trim_chars};
use crate::similarity::{row_sim_spec, calculate_row_similarity};

verus! {

use vstd::string::StringExecFns;

/// The entries an inverted-index bucket may feed the candidate scan for one
/// source row, in total, before the scan stops early.
pub const CANDIDATE_BUDGET: usize = 10000;

/// A single bucket larger than this is skipped outright: it would dominate
/// the budget while saying little.
pub const MAX_BUCKET: usize = 2000;

/// How many candidates, ranked by shared-column count, get a full similarity
/// score.
pub const TOP_K: usize = 10;

/// The per-mille similarity a fuzzy match must exceed to be accepted.
pub const SIMILARITY_THRESHOLD: u64 = 500;

// ---------------------------------------------------------------------------
// Word-level text diff (outside collaborator)
// ---------------------------------------------------------------------------

/// What the word diff returns for two texts: a function of the texts alone.
pub uninterp spec fn word_spans(old_text: Seq<char>, new_text: Seq<char>) -> Seq<
    (bool, bool, Seq<char>),
>;

/// The old text a span list reconstructs: the values of the non-added spans.
pub open spec fn old_text_of(spans: Seq<DiffChange>) -> Seq<char>
    decreases spans.len(),
{
    if spans.len() == 0 {
        Seq::empty()
    } else {
        old_text_of(spans.drop_last()) + (if spans.last().added {
            Seq::empty()
        } else {
            spans.last().value@
        })
    }
}

/// The new text a span list reconstructs: the values of the non-removed
/// spans.
pub open spec fn new_text_of(spans: Seq<DiffChange>) -> Seq<char>
    decreases spans.len(),
{
    if spans.len() == 0 {
        Seq::empty()
    } else {
        new_text_of(spans.drop_last()) + (if spans.last().removed {
            Seq::empty()
        } else {
            spans.last().value@
        })
    }
}

/// The spans stand for a word diff of the two texts: they are the word
/// diff's spans, and concatenated they reconstruct each side.
pub open spec fn spans_for(spans: Seq<DiffChange>, old_text: Seq<char>, new_text: Seq<
    char,
>) -> bool {
    &&& spans.len() == word_spans(old_text, new_text).len()
    &&& forall|i: int|
        0 <= i < spans.len() ==> ((#[trigger] spans[i]).added, spans[i].removed, spans[i].value@)
            == word_spans(old_text, new_text)[i]
    &&& forall|i: int| 0 <= i < spans.len() ==> !((#[trigger] spans[i]).added && spans[i].removed)
    &&& old_text_of(spans) == old_text
    &&& new_text_of(spans) == new_text
}

/// Relies on `similar::TextDiff::from_words` and `iter_all_changes`: the
/// spans depend on the two texts alone; a deleted span belongs to the old
/// text only, an inserted one to the new text only, an equal one to both,
/// and no span is both; and `from_words` tokenizes each text completely, so
/// the spans of each side concatenate back to that side's text.
#[verifier::external_body]
fn word_diff_raw(old_text: &str, new_text: &str) -> (r: Vec<DiffChange>)
    ensures
        r@.len() == word_spans(old_text@, new_text@).len(),
        spans_for(r@, old_text@, new_text@),
{
    let diff = similar::TextDiff::from_words(old_text, new_text);
    let mut changes = Vec::new();
    for change in diff.iter_all_changes() {
        let (added, removed) = match change.tag() {
            similar::ChangeTag::Delete => (false, true),
            similar::ChangeTag::Insert => (true, false),
            similar::ChangeTag::Equal => (false, false),
        };
        changes.push(DiffChange { added, removed, value: change.value().to_string() });
    }
    changes
}

/// Word-diffs two texts, case-folding both first when the comparison is
/// case-insensitive.
pub fn diff_text_internal(old_text: &str, new_text: &str, case_sensitive: bool) -> (r: Vec<
    DiffChange,
>)
    ensures
        case_sensitive ==> spans_for(r@, old_text@, new_text@),
        !case_sensitive ==> spans_for(r@, lower_of(old_text@), lower_of(new_text@)),
{
    if case_sensitive {
        word_diff_raw(old_text, new_text)
    } else {
        let old_lower = lowercase(old_text);
        let new_lower = lowercase(new_text);
        word_diff_raw(old_lower.as_str(), new_lower.as_str())
    }
}

// ---------------------------------------------------------------------------
// Primary-key model
// ---------------------------------------------------------------------------

/// How one row is classified.
pub ghost enum RowClass {
    Added,
    Modified,
    Unchanged,
}

/// The key of the `i`-th row of `rows`.
pub open spec fn rkey(rows: Seq<Seq<Seq<char>>>, hmap: Map<Seq<char>, usize>, keys: Seq<
    Seq<char>,
>, cs: bool, iw: bool, ien: bool, i: int) -> Seq<char> {
    key_spec(rows[i], hmap, keys, cs, iw, ien)
}

/// `m` is the key-to-position map of `rows`: every row is found under its
/// key, and every entry points back at a row with that key.
pub open spec fn key_map_ok(m: Map<Seq<char>, usize>, rows: Seq<Seq<Seq<char>>>, hmap: Map<
    Seq<char>,
    usize,
>, keys: Seq<Seq<char>>, cs: bool, iw: bool, ien: bool) -> bool {
    &&& forall|i: int|
        0 <= i < rows.len() ==> m.contains_key(#[trigger] rkey(rows, hmap, keys, cs, iw, ien, i))
            && m[rkey(rows, hmap, keys, cs, iw, ien, i)] == i
    &&& forall|k: Seq<char>|
        #[trigger] m.contains_key(k) ==> 0 <= (m[k] as int) < rows.len() && rkey(rows, hmap, keys,
            cs, iw, ien, m[k] as int) == k
}

/// All row keys are pairwise distinct.
pub open spec fn keys_unique(rows: Seq<Seq<Seq<char>>>, hmap: Map<Seq<char>, usize>, keys: Seq<
    Seq<char>,
>, cs: bool, iw: bool, ien: bool) -> bool {
    forall|i: int, j: int|
        0 <= i < j < rows.len() ==> rkey(rows, hmap, keys, cs, iw, ien, i) != rkey(rows, hmap,
            keys, cs, iw, ien, j)
}

/// Two rows share the key `key`: the value a duplicate-key error must name.
pub open spec fn has_duplicate_key(rows: Seq<Seq<Seq<char>>>, hmap: Map<Seq<char>, usize>,
    keys: Seq<Seq<char>>, cs: bool, iw: bool, ien: bool, key: Seq<char>) -> bool {
    exists|i: int, j: int|
        0 <= i < j < rows.len() && #[trigger] rkey(rows, hmap, keys, cs, iw, ien, i) == #[trigger]
        rkey(rows, hmap, keys, cs, iw, ien, j) && rkey(rows, hmap, keys, cs, iw, ien, j) == key
}

/// Builds the key-to-position map of a dataset's rows, failing on the first
/// repeated key.
pub fn build_key_map(rows: &Vec<Vec<String>>, hmap: &vstd::hash_map::StringHashMap<usize>,
    key_columns: &Vec<String>, case_sensitive: bool, ignore_whitespace: bool,
    ignore_empty_vs_null: bool, in_target: bool) -> (r: Result<
    vstd::hash_map::StringHashMap<usize>,
    DiffError,
>)
    ensures
        r is Ok <==> keys_unique(rows.deep_view(), hmap@, key_columns.deep_view(), case_sensitive,
            ignore_whitespace, ignore_empty_vs_null),
        r is Ok ==> key_map_ok(r->Ok_0@, rows.deep_view(), hmap@, key_columns.deep_view(),
            case_sensitive, ignore_whitespace, ignore_empty_vs_null),
        r is Err ==> (r->Err_0 matches DiffError::DuplicateKey { key, in_target: it } && it
            == in_target && has_duplicate_key(rows.deep_view(), hmap@, key_columns.deep_view(),
            case_sensitive, ignore_whitespace, ignore_empty_vs_null, key@)),
{
    let ghost rv = rows.deep_view();
    let ghost kv = key_columns.deep_view();
    let mut m = vstd::hash_map::StringHashMap::<usize>::new();
    let mut i: usize = 0;
    while i < rows.len()
        invariant
            i <= rows.len(),
            rv == rows.deep_view(),
            kv == key_columns.deep_view(),
            rv.len() == rows@.len(),
            forall|t: int|
                0 <= t < i ==> m@.contains_key(#[trigger] rkey(rv, hmap@, kv, case_sensitive,
                    ignore_whitespace, ignore_empty_vs_null, t)) && m@[rkey(rv, hmap@, kv,
                    case_sensitive, ignore_whitespace, ignore_empty_vs_null, t)] == t,
            forall|k: Seq<char>|
                #[trigger] m@.contains_key(k) ==> 0 <= (m@[k] as int) < i && rkey(rv, hmap@, kv,
                    case_sensitive, ignore_whitespace, ignore_empty_vs_null, m@[k] as int) == k,
            forall|t1: int, t2: int|
                0 <= t1 < t2 < i ==> rkey(rv, hmap@, kv, case_sensitive, ignore_whitespace,
                    ignore_empty_vs_null, t1) != rkey(rv, hmap@, kv, case_sensitive,
                    ignore_whitespace, ignore_empty_vs_null, t2),
        decreases rows.len() - i,
    {
        let key = get_row_key(&rows[i], hmap, key_columns, case_sensitive, ignore_whitespace,
            ignore_empty_vs_null);
        proof {
            assert(rows.deep_view()[i as int] == rows@[i as int].deep_view());
            assert(key@ == rkey(rv, hmap@, kv, case_sensitive, ignore_whitespace,
                ignore_empty_vs_null, i as int));
        }
        if m.contains_key(key.as_str()) {
            proof {
                let t = m@[key@] as int;
                assert(rkey(rv, hmap@, kv, case_sensitive, ignore_whitespace, ignore_empty_vs_null,
                    t) == key@);
                assert(0 <= t < i as int && rkey(rv, hmap@, kv, case_sensitive, ignore_whitespace,
                    ignore_empty_vs_null, t) == rkey(rv, hmap@, kv, case_sensitive,
                    ignore_whitespace, ignore_empty_vs_null, i as int) && rkey(rv, hmap@, kv,
                    case_sensitive, ignore_whitespace, ignore_empty_vs_null, i as int) == key@);
            }
            return Err(DiffError::DuplicateKey { key, in_target });
        }
        m.insert(key, i);
        i = i + 1;
    }
    Ok(m)
}

/// The names of the shared, non-excluded columns whose normalized cells
/// differ between a source and a target row, in header order.
pub open spec fn diff_cols(src_row: Seq<Seq<char>>, tgt_row: Seq<Seq<char>>, headers: Seq<
    Seq<char>,
>, smap: Map<Seq<char>, usize>, tmap: Map<Seq<char>, usize>, excluded: Seq<Seq<char>>, cs: bool,
    iw: bool, ien: bool) -> Seq<Seq<char>>
    decreases headers.len(),
{
    if headers.len() == 0 {
        Seq::empty()
    } else {
        let rest = diff_cols(src_row, tgt_row, headers.drop_last(), smap, tmap, excluded, cs, iw,
            ien);
        let h = headers.last();
        if smap.contains_key(h) && tmap.contains_key(h) && !seq_has(excluded, h) && norm_spec(
            col_value(src_row, smap, h),
            cs,
            iw,
            ien,
        ) != norm_spec(col_value(tgt_row, tmap, h), cs, iw, ien) {
            rest.push(h)
        } else {
            rest
        }
    }
}

/// One difference entry fully described: the differing column's name, the
/// raw cell of each side, and the word-level diff of those cells (of their
/// case-folded forms when the comparison is case-insensitive).
pub open spec fn diff_entry_ok(d: Difference, src_row: Seq<Seq<char>>, tgt_row: Seq<Seq<char>>,
    smap: Map<Seq<char>, usize>, tmap: Map<Seq<char>, usize>, col: Seq<char>, cs: bool) -> bool {
    &&& d.column@ == col
    &&& d.old_value@ == col_value(src_row, smap, col)
    &&& d.new_value@ == col_value(tgt_row, tmap, col)
    &&& cs ==> spans_for(d.diff@, d.old_value@, d.new_value@)
    &&& !cs ==> spans_for(d.diff@, lower_of(d.old_value@), lower_of(d.new_value@))
}

/// A difference list fully described: one entry per differing shared
/// non-excluded column, in header order, each carrying its column, raw cells
/// and word-level diff.
pub open spec fn differences_ok(ds: Seq<Difference>, src_row: Seq<Seq<char>>, tgt_row: Seq<
    Seq<char>,
>, headers: Seq<Seq<char>>, smap: Map<Seq<char>, usize>, tmap: Map<Seq<char>, usize>,
    excluded: Seq<Seq<char>>, cs: bool, iw: bool, ien: bool) -> bool {
    let cols = diff_cols(src_row, tgt_row, headers, smap, tmap, excluded, cs, iw, ien);
    &&& ds.len() == cols.len()
    &&& forall|k: int|
        0 <= k < ds.len() ==> diff_entry_ok(#[trigger] ds[k], src_row, tgt_row, smap, tmap,
            cols[k], cs)
}

/// Builds the per-column differences of a matched row pair: one entry per
/// shared, non-excluded column whose normalized cells differ, with the raw
/// cells and their word-level diff.
pub fn build_differences(src_row: &Vec<String>, tgt_row: &Vec<String>, headers: &Vec<String>,
    smap: &vstd::hash_map::StringHashMap<usize>, tmap: &vstd::hash_map::StringHashMap<usize>,
    excluded: &Vec<String>, case_sensitive: bool, ignore_whitespace: bool,
    ignore_empty_vs_null: bool) -> (r: Vec<Difference>)
    ensures
        differences_ok(r@, src_row.deep_view(), tgt_row.deep_view(), headers.deep_view(), smap@,
            tmap@, excluded.deep_view(), case_sensitive, ignore_whitespace, ignore_empty_vs_null),
{
    let ghost sr = src_row.deep_view();
    let ghost tr = tgt_row.deep_view();
    let ghost hv = headers.deep_view();
    let ghost ex = excluded.deep_view();
    let mut r: Vec<Difference> = Vec::new();
    let mut i: usize = 0;
    while i < headers.len()
        invariant
            i <= headers.len(),
            sr == src_row.deep_view(),
            tr == tgt_row.deep_view(),
            hv == headers.deep_view(),
            ex == excluded.deep_view(),
            hv.len() == headers@.len(),
            forall|k: int| 0 <= k < headers@.len() ==> hv[k] == headers@[k]@,
            differences_ok(r@, sr, tr, hv.take(i as int), smap@, tmap@, ex, case_sensitive,
                ignore_whitespace, ignore_empty_vs_null),
        decreases headers.len() - i,
    {
        proof {
            assert(hv.take(i as int + 1).drop_last() =~= hv.take(i as int));
            assert(hv.take(i as int + 1).last() == hv[i as int]);
        }
        let h = &headers[i];
        let in_src = smap.get(h.as_str());
        let in_tgt = tmap.get(h.as_str());
        let excluded_here = contains_str(excluded, h.as_str());
        match (in_src, in_tgt) {
            (Some(si), Some(ti)) => {
                if !excluded_here {
                    let sv: &str = if *si < src_row.len() {
                        src_row[*si].as_str()
                    } else {
                        proof {
                            reveal_strlit("");
                        }
                        ""
                    };
                    let tv: &str = if *ti < tgt_row.len() {
                        tgt_row[*ti].as_str()
                    } else {
                        proof {
                            reveal_strlit("");
                        }
                        ""
                    };
                    proof {
                        assert(sv@ == col_value(sr, smap@, hv[i as int]));
                        assert(tv@ == col_value(tr, tmap@, hv[i as int]));
                    }
                    let ns = normalize_value_cow(sv, case_sensitive, ignore_whitespace,
                        ignore_empty_vs_null);
                    let nt = normalize_value_cow(tv, case_sensitive, ignore_whitespace,
                        ignore_empty_vs_null);
                    if !str_eq(ns.as_str(), nt.as_str()) {
                        let spans = diff_text_internal(sv, tv, case_sensitive);
                        let entry = Difference {
                            column: h.clone(),
                            old_value: sv.to_owned(),
                            new_value: tv.to_owned(),
                            diff: spans,
                        };
                        proof {
                            assert(diff_entry_ok(entry, sr, tr, smap@, tmap@, hv[i as int],
                                case_sensitive));
                        }
                        r.push(entry);
                    }
                }
            },
            _ => {
            },
        }
        i = i + 1;
    }
    proof {
        assert(hv.take(headers@.len() as int) =~= hv);
    }
    r
}

/// How a target row is classified in primary-key mode, against the source
/// key map.
pub open spec fn pk_class(tgt_row: Seq<Seq<char>>, src_rows: Seq<Seq<Seq<char>>>, skm: Map<
    Seq<char>,
    usize,
>, headers: Seq<Seq<char>>, smap: Map<Seq<char>, usize>, tmap: Map<Seq<char>, usize>, keys: Seq<
    Seq<char>,
>, excluded: Seq<Seq<char>>, cs: bool, iw: bool, ien: bool) -> RowClass {
    let k = key_spec(tgt_row, tmap, keys, cs, iw, ien);
    if !skm.contains_key(k) {
        RowClass::Added
    } else if diff_cols(src_rows[skm[k] as int], tgt_row, headers, smap, tmap, excluded, cs, iw,
        ien).len() > 0 {
        RowClass::Modified
    } else {
        RowClass::Unchanged
    }
}

/// Whether a source row is classified removed: its key is absent from the
/// target key map.
pub open spec fn pk_removed(src_row: Seq<Seq<char>>, tkm: Map<Seq<char>, usize>, smap: Map<
    Seq<char>,
    usize,
>, keys: Seq<Seq<char>>, cs: bool, iw: bool, ien: bool) -> bool {
    !tkm.contains_key(key_spec(src_row, smap, keys, cs, iw, ien))
}

/// How many true flags a sequence holds.
pub open spec fn count_true(s: Seq<bool>) -> int
    decreases s.len(),
{
    if s.len() == 0 {
        0
    } else {
        count_true(s.drop_last()) + (if s.last() {
            1int
        } else {
            0int
        })
    }
}

/// Setting a false flag raises the count by one; setting a true flag keeps
/// it.
pub proof fn lemma_count_true_update(s: Seq<bool>, j: int)
    requires
        0 <= j < s.len(),
    ensures
        count_true(s.update(j, true)) == count_true(s) + (if s[j] {
            0int
        } else {
            1int
        }),
    decreases s.len(),
{
    let u = s.update(j, true);
    if j == s.len() - 1 {
        assert(u.drop_last() =~= s.drop_last());
        assert(u.last() == true);
    } else {
        assert(u.drop_last() =~= s.drop_last().update(j, true));
        assert(u.last() == s.last());
        lemma_count_true_update(s.drop_last(), j);
    }
}

/// A sequence of false flags counts zero.
pub proof fn lemma_count_true_all_false(s: Seq<bool>)
    requires
        forall|w: int| 0 <= w < s.len() ==> !s[w],
    ensures
        count_true(s) == 0,
    decreases s.len(),
{
    if s.len() > 0 {
        lemma_count_true_all_false(s.drop_last());
    }
}

/// The count of true flags never exceeds the length.
pub proof fn lemma_count_true_bounds(s: Seq<bool>)
    ensures
        0 <= count_true(s) <= s.len(),
    decreases s.len(),
{
    if s.len() > 0 {
        lemma_count_true_bounds(s.drop_last());
    }
}

/// A removed entry's guarantee survives later matches: once no unmatched
/// target shared the fingerprint, none does under any larger matched set.
proof fn lemma_removed_entry_monotone(d: CsvDifferInternal, rm: RemovedRow, s: int, e: int,
    k: int, m1: Seq<bool>, m2: Seq<bool>)
    requires
        d.cm_removed_entry_ok(rm, s, e, k, m1),
        m1.len() == m2.len(),
        m1.len() == d.n_t(),
        forall|j: int| 0 <= j < m1.len() && #[trigger] m1[j] ==> m2[j],
    ensures
        d.cm_removed_entry_ok(rm, s, e, k, m2),
{
    let i = choose|i: int|
        s <= i < e && rm.key@ == "Removed "@ + crate::text::dec_spec(k + 1) && is_fields_of(
            rm.source_row@,
            d.source.headers.deep_view(),
            #[trigger] d.source.rows.deep_view()[i],
        ) && (forall|j: int|
            0 <= j < d.n_t() && !(#[trigger] m1[j]) ==> d.tgt_fp(j) != d.src_fp(i));
    assert forall|j: int| 0 <= j < d.n_t() && !(#[trigger] m2[j]) implies d.tgt_fp(j) != d.src_fp(
        i,
    ) by {
        assert(!m1[j]);
    }
    assert(is_fields_of(rm.source_row@, d.source.headers.deep_view(),
        d.source.rows.deep_view()[i]));
}

/// A modified entry's no-unmatched-fingerprint guarantee survives later
/// matches, just as a removed entry's does.
proof fn lemma_modified_entry_monotone(d: CsvDifferInternal, m: ModifiedRow, s: int, e: int,
    m1: Seq<bool>, m2: Seq<bool>)
    requires
        d.cm_modified_entry_ok(m, s, e, m1),
        m1.len() == m2.len(),
        m1.len() == d.n_t(),
        forall|j: int| 0 <= j < m1.len() && #[trigger] m1[j] ==> m2[j],
    ensures
        d.cm_modified_entry_ok(m, s, e, m2),
{
    let (i, j) = choose|i: int, j: int|
        s <= i < e && 0 <= j < d.n_t() && m.key@ == "Row "@ + crate::text::dec_spec(i + 1)
            && is_fields_of(m.source_row@, d.source.headers.deep_view(),
            d.source.rows.deep_view()[i]) && is_fields_of(m.target_row@,
            d.target.headers.deep_view(), d.target.rows.deep_view()[j]) && #[trigger] d.sim_of(
            i,
            j,
        ) > SIMILARITY_THRESHOLD as int && differences_ok(m.differences@,
            d.source.rows.deep_view()[i], d.target.rows.deep_view()[j],
            d.source.headers.deep_view(), d.source.header_map@, d.target.header_map@,
            d.excluded_columns.deep_view(), d.case_sensitive, d.ignore_whitespace,
            d.ignore_empty_vs_null) && m.differences@.len() > 0 && (forall|w: int|
            0 <= w < d.n_t() && !(#[trigger] m1[w]) ==> d.tgt_fp(w) != d.src_fp(i));
    assert forall|w: int| 0 <= w < d.n_t() && !(#[trigger] m2[w]) implies d.tgt_fp(w) != d.src_fp(
        i,
    ) by {
        assert(!m1[w]);
    }
    assert(d.sim_of(i, j) > SIMILARITY_THRESHOLD as int);
}

/// A full count means every flag is set.
pub proof fn lemma_count_true_full(s: Seq<bool>)
    requires
        count_true(s) == s.len(),
    ensures
        forall|w: int| 0 <= w < s.len() ==> s[w],
    decreases s.len(),
{
    if s.len() > 0 {
        lemma_count_true_bounds(s.drop_last());
        lemma_count_true_full(s.drop_last());
        assert forall|w: int| 0 <= w < s.len() implies s[w] by {
            if w < s.len() - 1 {
                assert(s.drop_last()[w]);
            }
        }
    }
}

// ---------------------------------------------------------------------------
// The session
// ---------------------------------------------------------------------------

/// A resumable diff session over two parsed datasets.
pub struct CsvDifferInternal {
    pub source: Dataset,
    pub target: Dataset,
    pub key_columns: Vec<String>,
    pub excluded_columns: Vec<String>,
    pub case_sensitive: bool,
    pub ignore_whitespace: bool,
    pub ignore_empty_vs_null: bool,
    pub mode: String,
    pub source_map: Option<vstd::hash_map::StringHashMap<usize>>,
    pub target_map: Option<vstd::hash_map::StringHashMap<usize>>,
    pub matched_targets: Vec<bool>,
    pub target_fingerprint_lookup: Option<vstd::hash_map::StringHashMap<Vec<usize>>>,
    pub target_value_lookup: Vec<vstd::hash_map::StringHashMap<Vec<usize>>>,
}

impl CsvDifferInternal {
    /// Whether the session runs in primary-key mode.
    pub open spec fn is_pk(&self) -> bool {
        self.mode@ == "primary-key"@
    }

    /// The session invariant: datasets are well formed, and the mode's
    /// indices exist and describe them.
    pub open spec fn wf(&self) -> bool {
        &&& self.source.wf()
        &&& self.target.wf()
        &&& self.is_pk() ==> {
            &&& self.source_map is Some
            &&& self.target_map is Some
            &&& key_map_ok(self.source_map->0@, self.source.rows.deep_view(),
                self.source.header_map@, self.key_columns.deep_view(), self.case_sensitive,
                self.ignore_whitespace, self.ignore_empty_vs_null)
            &&& key_map_ok(self.target_map->0@, self.target.rows.deep_view(),
                self.target.header_map@, self.key_columns.deep_view(), self.case_sensitive,
                self.ignore_whitespace, self.ignore_empty_vs_null)
        }
        &&& !self.is_pk() ==> {
            &&& self.matched_targets@.len() == self.target.rows.deep_view().len()
            &&& self.target_fingerprint_lookup is Some
            &&& forall|k: Seq<char>, w: int|
                self.target_fingerprint_lookup->0@.contains_key(k) && 0 <= w
                    < self.target_fingerprint_lookup->0@[k]@.len() ==> (#[trigger]
                self.target_fingerprint_lookup->0@[k]@[w] as int)
                    < self.target.rows.deep_view().len() && fp_spec(
                    self.target.rows.deep_view()[self.target_fingerprint_lookup->0@[k]@[w] as int],
                    self.target.header_map@,
                    self.source.headers.deep_view(),
                    self.excluded_columns.deep_view(),
                    self.case_sensitive,
                    self.ignore_whitespace,
                    self.ignore_empty_vs_null,
                ) == k
            &&& forall|c: int, k: Seq<char>, w: int|
                0 <= c < self.target_value_lookup@.len() && self.target_value_lookup@[c]@.contains_key(
                    k,
                ) && 0 <= w < self.target_value_lookup@[c]@[k]@.len() ==> (#[trigger]
                self.target_value_lookup@[c]@[k]@[w] as int) < self.target.rows.deep_view().len()
            &&& forall|j: int|
                0 <= j < self.target.rows.deep_view().len() && !(
                #[trigger] self.matched_targets@[j]) ==> self.target_fingerprint_lookup->0@.contains_key(
                    self.tgt_fp(j),
                ) && in_bucket(self.target_fingerprint_lookup->0@[self.tgt_fp(j)]@, j)
        }
    }

    /// How the `j`-th target row is classified by this session.
    pub open spec fn class_of(&self, j: int) -> RowClass {
        pk_class(self.target.rows.deep_view()[j], self.source.rows.deep_view(),
            self.source_map->0@, self.source.headers.deep_view(), self.source.header_map@,
            self.target.header_map@, self.key_columns.deep_view(),
            self.excluded_columns.deep_view(), self.case_sensitive, self.ignore_whitespace,
            self.ignore_empty_vs_null)
    }

    /// Whether the `i`-th source row is classified removed.
    pub open spec fn removed_of(&self, i: int) -> bool {
        pk_removed(self.source.rows.deep_view()[i], self.target_map->0@, self.source.header_map@,
            self.key_columns.deep_view(), self.case_sensitive, self.ignore_whitespace,
            self.ignore_empty_vs_null)
    }

    /// How many target rows in `[s, e)` fall in the given class.
    pub open spec fn count_class(&self, c: RowClass, s: int, e: int) -> int
        decreases e - s,
    {
        if e <= s {
            0
        } else {
            self.count_class(c, s, e - 1) + (if self.class_of(e - 1) == c {
                1int
            } else {
                0int
            })
        }
    }

    /// How many source rows in `[s, e)` are classified removed.
    pub open spec fn count_removed(&self, s: int, e: int) -> int
        decreases e - s,
    {
        if e <= s {
            0
        } else {
            self.count_removed(s, e - 1) + (if self.removed_of(e - 1) {
                1int
            } else {
                0int
            })
        }
    }
}


/// Whether a row position occurs in a bucket's list.
pub open spec fn in_bucket(bucket: Seq<usize>, j: int) -> bool {
    exists|w: int| 0 <= w < bucket.len() && (#[trigger] bucket[w] as int) == j
}

/// `v` clamped into `[0, n]`.
pub open spec fn clamp(v: int, n: int) -> int {
    if v <= n {
        v
    } else {
        n
    }
}

/// Whether `pairs` presents `row` under `headers`: one pair per header, in
/// order, with an empty value where the row is short.
pub open spec fn is_fields_of(pairs: Seq<(String, String)>, headers: Seq<Seq<char>>, row: Seq<
    Seq<char>,
>) -> bool {
    &&& pairs.len() == headers.len()
    &&& forall|p: int|
        0 <= p < pairs.len() ==> (#[trigger] pairs[p]).0@ == headers[p] && pairs[p].1@ == (if p
            < row.len() {
            row[p]
        } else {
            Seq::<char>::empty()
        })
}

/// Whether a mode string names primary-key mode.
pub open spec fn is_pk_mode(m: Seq<char>) -> bool {
    m == "primary-key"@
}

/// Whether two header lists are positionally equivalent but differently
/// named, which content-match mode reconciles by adopting the source names.
pub open spec fn headers_aligned(sh: Seq<Seq<char>>, th: Seq<Seq<char>>) -> bool {
    sh != th && sh.len() == th.len()
}

/// Compares two header lists name by name.
fn headers_equal(a: &Vec<String>, b: &Vec<String>) -> (r: bool)
    ensures
        r == (a.deep_view() == b.deep_view()),
{
    if a.len() != b.len() {
        proof {
            assert(a.deep_view().len() != b.deep_view().len());
        }
        return false;
    }
    let mut i: usize = 0;
    while i < a.len()
        invariant
            i <= a.len(),
            a@.len() == b@.len(),
            forall|k: int| 0 <= k < i ==> a.deep_view()[k] == b.deep_view()[k],
        decreases a.len() - i,
    {
        if !str_eq(a[i].as_str(), b[i].as_str()) {
            proof {
                assert(a.deep_view()[i as int] != b.deep_view()[i as int]);
            }
            return false;
        }
        i = i + 1;
    }
    proof {
        assert(a.deep_view() =~= b.deep_view());
    }
    true
}

/// Copies a list of row positions.
fn copy_indices(v: &Vec<usize>) -> (r: Vec<usize>)
    ensures
        r@ == v@,
{
    let mut r: Vec<usize> = Vec::new();
    let mut i: usize = 0;
    while i < v.len()
        invariant
            i <= v.len(),
            r@ == v@.take(i as int),
        decreases v.len() - i,
    {
        r.push(v[i]);
        proof {
            assert(r@ =~= v@.take(i as int + 1));
        }
        i = i + 1;
    }
    proof {
        assert(v@.take(v@.len() as int) =~= v@);
    }
    r
}

impl CsvDifferInternal {
    /// How many source rows the session holds.
    pub open spec fn n_s(&self) -> int {
        self.source.rows.deep_view().len() as int
    }

    /// How many target rows the session holds.
    pub open spec fn n_t(&self) -> int {
        self.target.rows.deep_view().len() as int
    }

    /// The key of the `j`-th target row.
    pub open spec fn tkey(&self, j: int) -> Seq<char> {
        rkey(self.target.rows.deep_view(), self.target.header_map@, self.key_columns.deep_view(),
            self.case_sensitive, self.ignore_whitespace, self.ignore_empty_vs_null, j)
    }

    /// The key of the `i`-th source row.
    pub open spec fn skey(&self, i: int) -> Seq<char> {
        rkey(self.source.rows.deep_view(), self.source.header_map@, self.key_columns.deep_view(),
            self.case_sensitive, self.ignore_whitespace, self.ignore_empty_vs_null, i)
    }

    /// The source row a target row's key finds.
    pub open spec fn partner(&self, j: int) -> int {
        self.source_map->0@[self.tkey(j)] as int
    }

    /// The differing shared columns between a source and a target row.
    pub open spec fn diffs_of(&self, i: int, j: int) -> Seq<Seq<char>> {
        diff_cols(self.source.rows.deep_view()[i], self.target.rows.deep_view()[j],
            self.source.headers.deep_view(), self.source.header_map@, self.target.header_map@,
            self.excluded_columns.deep_view(), self.case_sensitive, self.ignore_whitespace,
            self.ignore_empty_vs_null)
    }

    /// The fingerprint of the `i`-th source row.
    pub open spec fn src_fp(&self, i: int) -> Seq<char> {
        fp_spec(self.source.rows.deep_view()[i], self.source.header_map@,
            self.source.headers.deep_view(), self.excluded_columns.deep_view(),
            self.case_sensitive, self.ignore_whitespace, self.ignore_empty_vs_null)
    }

    /// The fingerprint of the `j`-th target row, over the source schema.
    pub open spec fn tgt_fp(&self, j: int) -> Seq<char> {
        fp_spec(self.target.rows.deep_view()[j], self.target.header_map@,
            self.source.headers.deep_view(), self.excluded_columns.deep_view(),
            self.case_sensitive, self.ignore_whitespace, self.ignore_empty_vs_null)
    }

    /// The similarity of a source and a target row under the session policy.
    pub open spec fn sim_of(&self, i: int, j: int) -> int {
        row_sim_spec(self.source.rows.deep_view()[i], self.target.rows.deep_view()[j],
            self.source.header_map@, self.target.header_map@, self.source.headers.deep_view(),
            self.excluded_columns.deep_view(), self.case_sensitive, self.ignore_whitespace,
            self.ignore_empty_vs_null)
    }

    /// An added entry of a primary-key chunk: some target row of the chunk
    /// classified added, carried under its key.
    pub open spec fn pk_added_entry_ok(&self, a: AddedRow, s: int, e: int, k: int) -> bool {
        exists|j: int|
            s <= j < e && #[trigger] self.class_of(j) == RowClass::Added && self.count_class(
                RowClass::Added,
                s,
                j,
            ) == k && a.key@ == self.tkey(j) && is_fields_of(a.target_row@,
                self.target.headers.deep_view(), self.target.rows.deep_view()[j])
    }

    /// A modified entry of a primary-key chunk: the `k`-th target row
    /// classified modified, with its source partner's cells and a non-empty
    /// difference list carrying column, raw cells and word-level diff per
    /// differing column.
    pub open spec fn pk_modified_entry_ok(&self, m: ModifiedRow, s: int, e: int, k: int) -> bool {
        exists|j: int|
            s <= j < e && #[trigger] self.class_of(j) == RowClass::Modified && self.count_class(
                RowClass::Modified,
                s,
                j,
            ) == k && m.key@ == self.tkey(j) && is_fields_of(m.source_row@,
                self.source.headers.deep_view(),
                self.source.rows.deep_view()[self.partner(j)]) && is_fields_of(m.target_row@,
                self.target.headers.deep_view(), self.target.rows.deep_view()[j])
                && differences_ok(m.differences@,
                self.source.rows.deep_view()[self.partner(j)], self.target.rows.deep_view()[j],
                self.source.headers.deep_view(), self.source.header_map@, self.target.header_map@,
                self.excluded_columns.deep_view(), self.case_sensitive, self.ignore_whitespace,
                self.ignore_empty_vs_null) && m.differences@.len() > 0
    }

    /// An unchanged entry of a primary-key chunk: the `k`-th target row
    /// classified unchanged, carried with its source partner's cells.
    pub open spec fn pk_unchanged_entry_ok(&self, u: UnchangedRow, s: int, e: int, k: int) -> bool {
        exists|j: int|
            s <= j < e && #[trigger] self.class_of(j) == RowClass::Unchanged && self.count_class(
                RowClass::Unchanged,
                s,
                j,
            ) == k && u.key@ == self.tkey(j) && is_fields_of(u.row@,
                self.source.headers.deep_view(),
                self.source.rows.deep_view()[self.partner(j)])
    }

    /// A removed entry: the `k`-th source row whose key the target set
    /// lacks.
    pub open spec fn pk_removed_entry_ok(&self, rm: RemovedRow, k: int) -> bool {
        exists|i: int|
            0 <= i < self.n_s() && #[trigger] self.removed_of(i) && self.count_removed(0, i) == k
                && rm.key@ == self.skey(i) && is_fields_of(rm.source_row@,
                self.source.headers.deep_view(), self.source.rows.deep_view()[i])
    }

    /// A modified entry of a content-match chunk: a source row of the chunk
    /// whose fingerprint no still-unmatched target row shares, paired with
    /// some target row at similarity above the threshold, carrying the full
    /// difference payload.
    pub open spec fn cm_modified_entry_ok(&self, m: ModifiedRow, s: int, e: int,
        matched_after: Seq<bool>) -> bool {
        exists|i: int, j: int|
            s <= i < e && 0 <= j < self.n_t() && m.key@ == "Row "@ + crate::text::dec_spec(i + 1)
                && is_fields_of(m.source_row@, self.source.headers.deep_view(),
                self.source.rows.deep_view()[i]) && is_fields_of(m.target_row@,
                self.target.headers.deep_view(), self.target.rows.deep_view()[j]) && #[trigger]
            self.sim_of(i, j) > SIMILARITY_THRESHOLD as int && differences_ok(m.differences@,
                self.source.rows.deep_view()[i], self.target.rows.deep_view()[j],
                self.source.headers.deep_view(), self.source.header_map@, self.target.header_map@,
                self.excluded_columns.deep_view(), self.case_sensitive, self.ignore_whitespace,
                self.ignore_empty_vs_null) && m.differences@.len() > 0 && (forall|w: int|
                0 <= w < self.n_t() && !(#[trigger] matched_after[w]) ==> self.tgt_fp(w)
                    != self.src_fp(i))
    }

    /// An unchanged entry of a content-match chunk: a source row of the
    /// chunk whose fingerprint an unmatched target row shared, or whose
    /// accepted fuzzy partner differed in no column.
    pub open spec fn cm_unchanged_entry_ok(&self, u: UnchangedRow, s: int, e: int) -> bool {
        exists|i: int, j: int|
            s <= i < e && 0 <= j < self.n_t() && u.key@ == "Row "@ + crate::text::dec_spec(i + 1)
                && is_fields_of(u.row@, self.source.headers.deep_view(),
                self.source.rows.deep_view()[i]) && ((#[trigger] self.src_fp(i) == #[trigger]
            self.tgt_fp(j)) || (self.sim_of(i, j) > SIMILARITY_THRESHOLD as int && self.diffs_of(
                i,
                j,
            ).len() == 0))
    }

    /// The `k`-th removed entry of a content-match chunk: some source row of
    /// the chunk whose fingerprint no still-unmatched target row shares --
    /// an exact match is never passed over.
    pub open spec fn cm_removed_entry_ok(&self, rm: RemovedRow, s: int, e: int, k: int,
        matched_after: Seq<bool>) -> bool {
        exists|i: int|
            s <= i < e && rm.key@ == "Removed "@ + crate::text::dec_spec(k + 1) && is_fields_of(
                rm.source_row@,
                self.source.headers.deep_view(),
                #[trigger] self.source.rows.deep_view()[i],
            ) && (forall|j: int|
                0 <= j < self.n_t() && !(#[trigger] matched_after[j]) ==> self.tgt_fp(j)
                    != self.src_fp(i))
    }

    /// The `k`-th added entry of a content-match run: the still-unmatched
    /// target row with exactly `k` unmatched rows before it, under the key
    /// `Added k+1` -- so the added bucket lists every unmatched target row
    /// once, in ascending row order.
    pub open spec fn cm_added_entry_ok(&self, a: AddedRow, k: int, matched_after: Seq<
        bool,
    >) -> bool {
        exists|j: int|
            0 <= j < self.n_t() && !(#[trigger] matched_after[j]) && j - count_true(
                matched_after.take(j),
            ) == k && a.key@ == "Added "@ + crate::text::dec_spec(k + 1) && is_fields_of(
                a.target_row@,
                self.target.headers.deep_view(),
                self.target.rows.deep_view()[j],
            )
    }

    /// Parses both texts, aligns headers where content-match mode asks for
    /// it, validates the key columns, and builds the mode's indices.  On any
    /// failure no session exists.
    pub fn new(source_csv: &str, target_csv: &str, key_columns: Vec<String>, case_sensitive: bool,
        ignore_whitespace: bool, ignore_empty_vs_null: bool, excluded_columns: Vec<String>,
        has_headers: bool, mode: String) -> (r: Result<Self, DiffError>)
        ensures
            r is Ok ==> r->Ok_0.wf(),
            r is Ok ==> ({
                let d = r->Ok_0;
                let sh = crate::parse::resolved_headers(csv_table(source_csv@), has_headers);
                let th = crate::parse::resolved_headers(csv_table(target_csv@), has_headers);
                &&& d.mode@ == mode@
                &&& d.is_pk() == is_pk_mode(mode@)
                &&& d.case_sensitive == case_sensitive
                &&& d.ignore_whitespace == ignore_whitespace
                &&& d.ignore_empty_vs_null == ignore_empty_vs_null
                &&& d.key_columns.deep_view() == key_columns.deep_view()
                &&& d.excluded_columns.deep_view() == excluded_columns.deep_view()
                &&& d.source.headers.deep_view() == sh
                &&& d.source.rows.deep_view() == crate::parse::resolved_rows(
                    csv_table(source_csv@),
                    has_headers,
                )
                &&& d.target.rows.deep_view() == crate::parse::resolved_rows(
                    csv_table(target_csv@),
                    has_headers,
                )
                &&& d.target.headers.deep_view() == (if !is_pk_mode(mode@) && headers_aligned(
                    sh,
                    th,
                ) {
                    sh
                } else {
                    th
                })
                &&& d.source.header_map@ == crate::parse::header_map_spec(
                    d.source.headers.deep_view(),
                )
                &&& d.target.header_map@ == crate::parse::header_map_spec(
                    d.target.headers.deep_view(),
                )
            }),
            r is Ok ==> csv_ok(source_csv@) && csv_ok(target_csv@),
            (r is Err && r->Err_0 is Parse) <==> !(csv_ok(source_csv@) && csv_ok(target_csv@)),
            !is_pk_mode(mode@) && csv_ok(source_csv@) && csv_ok(target_csv@) ==> r is Ok,
            (!is_pk_mode(mode@) && r is Ok) ==> count_true(r->Ok_0.matched_targets@) == 0
                && r->Ok_0.matched_targets@.len() == r->Ok_0.n_t(),
            is_pk_mode(mode@) && r is Err && r->Err_0 is KeyColumnNotFound ==> (
            r->Err_0 matches DiffError::KeyColumnNotFound { column, in_target } && seq_has(
                key_columns.deep_view(),
                column@,
            ) && !seq_has(
                (if in_target {
                    crate::parse::resolved_headers(csv_table(target_csv@), has_headers)
                } else {
                    crate::parse::resolved_headers(csv_table(source_csv@), has_headers)
                }),
                column@,
            )),
            is_pk_mode(mode@) && r is Err && r->Err_0 is DuplicateKey ==> (
            r->Err_0 matches DiffError::DuplicateKey { key, in_target } && has_duplicate_key(
                crate::parse::resolved_rows(
                    csv_table(if in_target {
                        target_csv@
                    } else {
                        source_csv@
                    }),
                    has_headers,
                ),
                crate::parse::header_map_spec(
                    crate::parse::resolved_headers(
                        csv_table(if in_target {
                            target_csv@
                        } else {
                            source_csv@
                        }),
                        has_headers,
                    ),
                ),
                key_columns.deep_view(),
                case_sensitive,
                ignore_whitespace,
                ignore_empty_vs_null,
                key@,
            )),
            is_pk_mode(mode@) && r is Ok ==> (forall|t: int|
                0 <= t < key_columns.deep_view().len() ==> seq_has(
                    crate::parse::resolved_headers(csv_table(source_csv@), has_headers),
                    #[trigger] key_columns.deep_view()[t],
                ) && seq_has(
                    crate::parse::resolved_headers(csv_table(target_csv@), has_headers),
                    key_columns.deep_view()[t],
                )),
            (is_pk_mode(mode@) && csv_ok(source_csv@) && csv_ok(target_csv@) && (exists|t: int|
                0 <= t < key_columns.deep_view().len() && !(seq_has(
                    crate::parse::resolved_headers(csv_table(source_csv@), has_headers),
                    #[trigger] key_columns.deep_view()[t],
                ) && seq_has(
                    crate::parse::resolved_headers(csv_table(target_csv@), has_headers),
                    key_columns.deep_view()[t],
                )))) ==> r is Err && r->Err_0 is KeyColumnNotFound,
            ({
                let sh = crate::parse::resolved_headers(csv_table(source_csv@), has_headers);
                let th = crate::parse::resolved_headers(csv_table(target_csv@), has_headers);
                let sr = crate::parse::resolved_rows(csv_table(source_csv@), has_headers);
                let tr = crate::parse::resolved_rows(csv_table(target_csv@), has_headers);
                (is_pk_mode(mode@) && csv_ok(source_csv@) && csv_ok(target_csv@) && (forall|t: int|
                    0 <= t < key_columns.deep_view().len() ==> seq_has(
                        sh,
                        #[trigger] key_columns.deep_view()[t],
                    ) && seq_has(th, key_columns.deep_view()[t])) && keys_unique(
                    sr,
                    crate::parse::header_map_spec(sh),
                    key_columns.deep_view(),
                    case_sensitive,
                    ignore_whitespace,
                    ignore_empty_vs_null,
                ) && keys_unique(
                    tr,
                    crate::parse::header_map_spec(th),
                    key_columns.deep_view(),
                    case_sensitive,
                    ignore_whitespace,
                    ignore_empty_vs_null,
                )) ==> r is Ok
            }),
    {
        let source = match parse_csv_internal(source_csv, has_headers) {
            Ok(d) => d,
            Err(e) => {
                return Err(e);
            },
        };
        let target0 = match parse_csv_internal(target_csv, has_headers) {
            Ok(d) => d,
            Err(e) => {
                return Err(e);
            },
        };
        let pk = str_eq(mode.as_str(), "primary-key");
        let target: Dataset = if !pk && !headers_equal(&source.headers, &target0.headers)
            && source.headers.len() == target0.headers.len() {
            let new_headers = crate::parse::clone_string_vec(&source.headers);
            let new_map = build_header_map(&new_headers);
            Dataset { headers: new_headers, rows: target0.rows, header_map: new_map }
        } else {
            target0
        };
        let mut differ = CsvDifferInternal {
            source,
            target,
            key_columns,
            excluded_columns,
            case_sensitive,
            ignore_whitespace,
            ignore_empty_vs_null,
            mode,
            source_map: None,
            target_map: None,
            matched_targets: Vec::new(),
            target_fingerprint_lookup: None,
            target_value_lookup: Vec::new(),
        };
        if pk {
            match differ.init_primary_key() {
                Ok(()) => Ok(differ),
                Err(e) => Err(e),
            }
        } else {
            differ.init_content_match();
            Ok(differ)
        }
    }

    /// Validates the key columns against both header maps and builds both
    /// key-to-row maps; a missing column or a repeated key aborts.
    fn init_primary_key(&mut self) -> (r: Result<(), DiffError>)
        requires
            old(self).source.wf(),
            old(self).target.wf(),
            is_pk_mode(old(self).mode@),
        ensures
            r is Ok ==> final(self).wf(),
            final(self).source == old(self).source,
            final(self).target == old(self).target,
            final(self).key_columns == old(self).key_columns,
            final(self).excluded_columns == old(self).excluded_columns,
            final(self).mode == old(self).mode,
            final(self).case_sensitive == old(self).case_sensitive,
            final(self).ignore_whitespace == old(self).ignore_whitespace,
            final(self).ignore_empty_vs_null == old(self).ignore_empty_vs_null,
            r is Err && r->Err_0 is KeyColumnNotFound ==> (
            r->Err_0 matches DiffError::KeyColumnNotFound { column, in_target } && seq_has(
                old(self).key_columns.deep_view(),
                column@,
            ) && !seq_has(
                (if in_target {
                    old(self).target.headers.deep_view()
                } else {
                    old(self).source.headers.deep_view()
                }),
                column@,
            )),
            r is Err && r->Err_0 is DuplicateKey ==> (
            r->Err_0 matches DiffError::DuplicateKey { key, in_target } && has_duplicate_key(
                (if in_target {
                    old(self).target.rows.deep_view()
                } else {
                    old(self).source.rows.deep_view()
                }),
                (if in_target {
                    old(self).target.header_map@
                } else {
                    old(self).source.header_map@
                }),
                old(self).key_columns.deep_view(),
                old(self).case_sensitive,
                old(self).ignore_whitespace,
                old(self).ignore_empty_vs_null,
                key@,
            )),
            r is Err ==> r->Err_0 is KeyColumnNotFound || r->Err_0 is DuplicateKey,
            r is Ok ==> (forall|t: int|
                0 <= t < old(self).key_columns.deep_view().len() ==> seq_has(
                    old(self).source.headers.deep_view(),
                    #[trigger] old(self).key_columns.deep_view()[t],
                ) && seq_has(
                    old(self).target.headers.deep_view(),
                    old(self).key_columns.deep_view()[t],
                )),
            (exists|t: int|
                0 <= t < old(self).key_columns.deep_view().len() && !(seq_has(
                    old(self).source.headers.deep_view(),
                    #[trigger] old(self).key_columns.deep_view()[t],
                ) && seq_has(
                    old(self).target.headers.deep_view(),
                    old(self).key_columns.deep_view()[t],
                ))) ==> r is Err && r->Err_0 is KeyColumnNotFound,
            ((forall|t: int|
                0 <= t < old(self).key_columns.deep_view().len() ==> seq_has(
                    old(self).source.headers.deep_view(),
                    #[trigger] old(self).key_columns.deep_view()[t],
                ) && seq_has(
                    old(self).target.headers.deep_view(),
                    old(self).key_columns.deep_view()[t],
                )) && keys_unique(old(self).source.rows.deep_view(), old(self).source.header_map@,
                old(self).key_columns.deep_view(), old(self).case_sensitive,
                old(self).ignore_whitespace, old(self).ignore_empty_vs_null) && keys_unique(
                old(self).target.rows.deep_view(),
                old(self).target.header_map@,
                old(self).key_columns.deep_view(),
                old(self).case_sensitive,
                old(self).ignore_whitespace,
                old(self).ignore_empty_vs_null,
            )) ==> r is Ok,
    {
        let mut t: usize = 0;
        while t < self.key_columns.len()
            invariant
                t <= self.key_columns@.len(),
                *self == *old(self),
                old(self).source.wf(),
                old(self).target.wf(),
                forall|w: int|
                    0 <= w < t ==> seq_has(
                        self.source.headers.deep_view(),
                        #[trigger] self.key_columns.deep_view()[w],
                    ) && seq_has(
                        self.target.headers.deep_view(),
                        self.key_columns.deep_view()[w],
                    ),
            decreases self.key_columns@.len() - t,
        {
            let kc = &self.key_columns[t];
            if !self.source.header_map.contains_key(kc.as_str()) {
                proof {
                    assert(self.key_columns.deep_view()[t as int] == kc@);
                    assert(seq_has(self.key_columns.deep_view(), kc@));
                }
                return Err(
                    DiffError::KeyColumnNotFound { column: kc.clone(), in_target: false },
                );
            }
            if !self.target.header_map.contains_key(kc.as_str()) {
                proof {
                    assert(self.key_columns.deep_view()[t as int] == kc@);
                    assert(seq_has(self.key_columns.deep_view(), kc@));
                }
                return Err(DiffError::KeyColumnNotFound { column: kc.clone(), in_target: true });
            }
            t = t + 1;
        }
        let smap = match build_key_map(&self.source.rows, &self.source.header_map,
            &self.key_columns, self.case_sensitive, self.ignore_whitespace,
            self.ignore_empty_vs_null, false) {
            Ok(m) => m,
            Err(e) => {
                proof {
                    assert(!keys_unique(self.source.rows.deep_view(), self.source.header_map@,
                        self.key_columns.deep_view(), self.case_sensitive, self.ignore_whitespace,
                        self.ignore_empty_vs_null));
                }
                return Err(e);
            },
        };
        let tmap = match build_key_map(&self.target.rows, &self.target.header_map,
            &self.key_columns, self.case_sensitive, self.ignore_whitespace,
            self.ignore_empty_vs_null, true) {
            Ok(m) => m,
            Err(e) => {
                proof {
                    assert(!keys_unique(self.target.rows.deep_view(), self.target.header_map@,
                        self.key_columns.deep_view(), self.case_sensitive, self.ignore_whitespace,
                        self.ignore_empty_vs_null));
                }
                return Err(e);
            },
        };
        self.source_map = Some(smap);
        self.target_map = Some(tmap);
        Ok(())
    }

    /// Builds the fingerprint index over the target rows, the per-column
    /// inverted value index, and the all-false matched flags.
    fn init_content_match(&mut self)
        requires
            old(self).source.wf(),
            old(self).target.wf(),
            !is_pk_mode(old(self).mode@),
        ensures
            final(self).wf(),
            final(self).source == old(self).source,
            final(self).target == old(self).target,
            final(self).key_columns == old(self).key_columns,
            final(self).excluded_columns == old(self).excluded_columns,
            final(self).mode == old(self).mode,
            final(self).case_sensitive == old(self).case_sensitive,
            final(self).ignore_whitespace == old(self).ignore_whitespace,
            final(self).ignore_empty_vs_null == old(self).ignore_empty_vs_null,
            forall|j: int| 0 <= j < final(self).n_t() ==> !final(self).matched_targets@[j],
            count_true(final(self).matched_targets@) == 0,
    {
        let n_t = self.target.rows.len();
        let mut matched: Vec<bool> = Vec::new();
        let mut j: usize = 0;
        while j < n_t
            invariant
                j <= n_t,
                matched@.len() == j,
                forall|w: int| 0 <= w < j ==> !matched@[w],
            decreases n_t - j,
        {
            matched.push(false);
            j = j + 1;
        }
        proof {
            lemma_count_true_all_false(matched@);
        }
        let mut fpl = vstd::hash_map::StringHashMap::<Vec<usize>>::new();
        let mut idx: usize = 0;
        while idx < n_t
            invariant
                idx <= n_t,
                n_t == self.target.rows@.len(),
                *self == *old(self),
                old(self).source.wf(),
                old(self).target.wf(),
                forall|k: Seq<char>, w: int|
                    fpl@.contains_key(k) && 0 <= w < fpl@[k]@.len() ==> (#[trigger] fpl@[k]@[w] as int)
                        < self.target.rows.deep_view().len() && fp_spec(
                        self.target.rows.deep_view()[fpl@[k]@[w] as int],
                        self.target.header_map@,
                        self.source.headers.deep_view(),
                        self.excluded_columns.deep_view(),
                        self.case_sensitive,
                        self.ignore_whitespace,
                        self.ignore_empty_vs_null,
                    ) == k,
                forall|j: int|
                    0 <= j < idx ==> fpl@.contains_key(#[trigger] old(self).tgt_fp(j))
                        && in_bucket(fpl@[old(self).tgt_fp(j)]@, j),
            decreases n_t - idx,
        {
            let fp = get_row_fingerprint(&self.target.rows[idx], &self.source.headers,
                &self.target.header_map, self.case_sensitive, self.ignore_whitespace,
                self.ignore_empty_vs_null, &self.excluded_columns);
            proof {
                assert(self.target.rows.deep_view()[idx as int] == self.target.rows@[idx as int].deep_view());
                assert(fp@ == old(self).tgt_fp(idx as int));
            }
            let ghost fpl0 = fpl@;
            let mut bucket: Vec<usize> = match fpl.get(fp.as_str()) {
                Some(b) => copy_indices(b),
                None => Vec::new(),
            };
            let ghost b0 = bucket@;
            bucket.push(idx);
            fpl.insert(fp, bucket);
            proof {
                assert(in_bucket(fpl@[old(self).tgt_fp(idx as int)]@, idx as int)) by {
                    assert(fpl@[old(self).tgt_fp(idx as int)]@[b0.len() as int] == idx);
                }
                assert forall|j: int| 0 <= j < idx + 1 implies fpl@.contains_key(
                    #[trigger] old(self).tgt_fp(j),
                ) && in_bucket(fpl@[old(self).tgt_fp(j)]@, j) by {
                    if j < idx {
                        if old(self).tgt_fp(j) == fp@ {
                            let w = choose|w: int|
                                0 <= w < fpl0[old(self).tgt_fp(j)]@.len() && (#[trigger] fpl0[old(
                                    self,
                                ).tgt_fp(j)]@[w] as int) == j;
                            assert(b0 == fpl0[fp@]@);
                            assert(fpl@[old(self).tgt_fp(j)]@[w] as int == j);
                        }
                    }
                }
            }
            idx = idx + 1;
        }
        let mut tvl: Vec<vstd::hash_map::StringHashMap<Vec<usize>>> = Vec::new();
        let mut c: usize = 0;
        while c < self.target.headers.len()
            invariant
                c <= self.target.headers@.len(),
                n_t == self.target.rows@.len(),
                *self == *old(self),
                old(self).source.wf(),
                old(self).target.wf(),
                forall|cc: int, k: Seq<char>, w: int|
                    0 <= cc < tvl@.len() && tvl@[cc]@.contains_key(k) && 0 <= w
                        < tvl@[cc]@[k]@.len() ==> (#[trigger] tvl@[cc]@[k]@[w] as int)
                        < self.target.rows.deep_view().len(),
                forall|j: int|
                    0 <= j < n_t ==> fpl@.contains_key(#[trigger] old(self).tgt_fp(j))
                        && in_bucket(fpl@[old(self).tgt_fp(j)]@, j),
            decreases self.target.headers@.len() - c,
        {
            let mut colmap = vstd::hash_map::StringHashMap::<Vec<usize>>::new();
            if !contains_str(&self.excluded_columns, self.target.headers[c].as_str()) {
                let mut idx2: usize = 0;
                while idx2 < n_t
                    invariant
                        idx2 <= n_t,
                        c < self.target.headers@.len(),
                        n_t == self.target.rows@.len(),
                        *self == *old(self),
                        old(self).source.wf(),
                        old(self).target.wf(),
                        forall|k: Seq<char>, w: int|
                            colmap@.contains_key(k) && 0 <= w < colmap@[k]@.len() ==> (#[trigger]
                            colmap@[k]@[w] as int) < self.target.rows.deep_view().len(),
                    decreases n_t - idx2,
                {
                    let row = &self.target.rows[idx2];
                    if c < row.len() {
                        let cell = &row[c];
                        let cv = chars_of(cell.as_str());
                        let tv = trim_chars(&cv);
                        if tv.len() > 0 {
                            let nv = normalize_value_cow(cell.as_str(), self.case_sensitive,
                                self.ignore_whitespace, self.ignore_empty_vs_null);
                            let mut bucket: Vec<usize> = match colmap.get(nv.as_str()) {
                                Some(b) => copy_indices(b),
                                None => Vec::new(),
                            };
                            bucket.push(idx2);
                            colmap.insert(nv, bucket);
                        }
                    }
                    idx2 = idx2 + 1;
                }
            }
            tvl.push(colmap);
            c = c + 1;
        }
        self.matched_targets = matched;
        self.target_fingerprint_lookup = Some(fpl);
        self.target_value_lookup = tvl;
        proof {
            assert forall|j: int|
                0 <= j < self.target.rows.deep_view().len() && !(
                #[trigger] self.matched_targets@[j]) implies self.target_fingerprint_lookup->0@.contains_key(
                self.tgt_fp(j),
            ) && in_bucket(self.target_fingerprint_lookup->0@[self.tgt_fp(j)]@, j) by {
                assert(self.tgt_fp(j) == old(self).tgt_fp(j));
                assert(self.target_fingerprint_lookup->0@.contains_key(old(self).tgt_fp(j)));
            }
        }
    }

    /// Classifies the target rows `[chunk_start, chunk_start + chunk_size)`
    /// against the source key map; on the chunk that reaches the last target
    /// row, also scans every source row for removals.  The chunk bounds are
    /// clamped to the target row count.
    pub fn diff_primary_key_chunk(&self, chunk_start: usize, chunk_size: usize) -> (r: DiffResult)
        requires
            self.wf(),
            self.is_pk(),
        ensures
            ({
                let s = clamp(chunk_start as int, self.n_t());
                let e = clamp(chunk_start as int + chunk_size as int, self.n_t());
                &&& r.added@.len() == self.count_class(RowClass::Added, s, e)
                &&& r.modified@.len() == self.count_class(RowClass::Modified, s, e)
                &&& r.unchanged@.len() == self.count_class(RowClass::Unchanged, s, e)
                &&& r.removed@.len() == (if e == self.n_t() {
                    self.count_removed(0, self.n_s())
                } else {
                    0int
                })
                &&& forall|k: int|
                    0 <= k < r.added@.len() ==> self.pk_added_entry_ok(
                        #[trigger] r.added@[k],
                        s,
                        e,
                        k,
                    )
                &&& forall|k: int|
                    0 <= k < r.modified@.len() ==> self.pk_modified_entry_ok(
                        #[trigger] r.modified@[k],
                        s,
                        e,
                        k,
                    )
                &&& forall|k: int|
                    0 <= k < r.unchanged@.len() ==> self.pk_unchanged_entry_ok(
                        #[trigger] r.unchanged@[k],
                        s,
                        e,
                        k,
                    )
                &&& forall|k: int|
                    0 <= k < r.removed@.len() ==> self.pk_removed_entry_ok(
                        #[trigger] r.removed@[k],
                        k,
                    )
            }),
            r.mode@ == "primary-key"@,
            r.key_columns.deep_view() == self.key_columns.deep_view(),
            r.excluded_columns.deep_view() == self.excluded_columns.deep_view(),
            r.source.headers.deep_view() == self.source.headers.deep_view(),
            r.target.headers.deep_view() == self.target.headers.deep_view(),
            r.source.rows@.len() == 0,
            r.target.rows@.len() == 0,
    {
        let n_t = self.target.rows.len();
        let n_s = self.source.rows.len();
        let s: usize = if chunk_start <= n_t {
            chunk_start
        } else {
            n_t
        };
        let e: usize = if chunk_size <= n_t - s && chunk_start <= n_t {
            chunk_start + chunk_size
        } else {
            n_t
        };
        proof {
            assert(s as int == clamp(chunk_start as int, self.n_t()));
            assert(e as int == clamp(chunk_start as int + chunk_size as int, self.n_t()));
        }
        let smap = match &self.source_map {
            Some(m) => m,
            None => {
                // unreachable: the invariant guarantees the map in this mode
                proof {
                    assert(false);
                }
                return DiffResult {
                    added: Vec::new(),
                    removed: Vec::new(),
                    modified: Vec::new(),
                    unchanged: Vec::new(),
                    source: DatasetMetadata { headers: Vec::new(), rows: Vec::new() },
                    target: DatasetMetadata { headers: Vec::new(), rows: Vec::new() },
                    key_columns: Vec::new(),
                    excluded_columns: Vec::new(),
                    mode: "primary-key".to_owned(),
                };
            },
        };
        let mut added: Vec<AddedRow> = Vec::new();
        let mut removed: Vec<RemovedRow> = Vec::new();
        let mut modified: Vec<ModifiedRow> = Vec::new();
        let mut unchanged: Vec<UnchangedRow> = Vec::new();
        let mut j: usize = s;
        while j < e
            invariant
                s <= j <= e <= n_t,
                n_t == self.target.rows@.len(),
                n_s == self.source.rows@.len(),
                self.wf(),
                self.is_pk(),
                smap == self.source_map->0,
                added@.len() == self.count_class(RowClass::Added, s as int, j as int),
                modified@.len() == self.count_class(RowClass::Modified, s as int, j as int),
                unchanged@.len() == self.count_class(RowClass::Unchanged, s as int, j as int),
                forall|k: int|
                    0 <= k < added@.len() ==> self.pk_added_entry_ok(#[trigger] added@[k], s as int,
                        e as int, k),
                forall|k: int|
                    0 <= k < modified@.len() ==> self.pk_modified_entry_ok(
                        #[trigger] modified@[k],
                        s as int,
                        e as int,
                        k,
                    ),
                forall|k: int|
                    0 <= k < unchanged@.len() ==> self.pk_unchanged_entry_ok(
                        #[trigger] unchanged@[k],
                        s as int,
                        e as int,
                        k,
                    ),
            decreases e - j,
        {
            let key = get_row_key(&self.target.rows[j], &self.target.header_map,
                &self.key_columns, self.case_sensitive, self.ignore_whitespace,
                self.ignore_empty_vs_null);
            proof {
                assert(self.target.rows.deep_view()[j as int] == self.target.rows@[j as int].deep_view());
                assert(key@ == self.tkey(j as int));
            }
            match smap.get(key.as_str()) {
                None => {
                    let entry = AddedRow {
                        key,
                        target_row: record_to_fields(&self.target.rows[j], &self.target.headers),
                    };
                    proof {
                        assert(self.class_of(j as int) == RowClass::Added);
                        assert(self.count_class(RowClass::Added, s as int, j as int)
                            == added@.len());
                        assert(self.pk_added_entry_ok(entry, s as int, e as int,
                            added@.len() as int));
                    }
                    added.push(entry);
                },
                Some(si) => {
                    proof {
                        assert(smap@.contains_key(key@));
                        assert((*si as int) < self.n_s());
                        assert(*si as int == self.partner(j as int));
                    }
                    let differences = build_differences(&self.source.rows[*si],
                        &self.target.rows[j], &self.source.headers, &self.source.header_map,
                        &self.target.header_map, &self.excluded_columns, self.case_sensitive,
                        self.ignore_whitespace, self.ignore_empty_vs_null);
                    proof {
                        assert(self.source.rows.deep_view()[*si as int] == self.source.rows@[*si as int].deep_view());
                        assert(differences@.len() == self.diffs_of(*si as int, j as int).len());
                    }
                    if differences.len() > 0 {
                        let entry = ModifiedRow {
                            key,
                            source_row: record_to_fields(&self.source.rows[*si],
                                &self.source.headers),
                            target_row: record_to_fields(&self.target.rows[j],
                                &self.target.headers),
                            differences,
                        };
                        proof {
                            assert(self.class_of(j as int) == RowClass::Modified);
                            assert(self.count_class(RowClass::Modified, s as int, j as int)
                                == modified@.len());
                            assert(self.pk_modified_entry_ok(entry, s as int, e as int,
                                modified@.len() as int));
                        }
                        modified.push(entry);
                    } else {
                        let entry = UnchangedRow {
                            key,
                            row: record_to_fields(&self.source.rows[*si], &self.source.headers),
                        };
                        proof {
                            assert(self.class_of(j as int) == RowClass::Unchanged);
                            assert(self.count_class(RowClass::Unchanged, s as int, j as int)
                                == unchanged@.len());
                            assert(self.pk_unchanged_entry_ok(entry, s as int, e as int,
                                unchanged@.len() as int));
                        }
                        unchanged.push(entry);
                    }
                },
            }
            j = j + 1;
        }
        if e >= n_t {
            let tmap = match &self.target_map {
                Some(m) => m,
                None => {
                    // unreachable: the invariant guarantees the map in this mode
                    proof {
                        assert(false);
                    }
                    return DiffResult {
                        added,
                        removed,
                        modified,
                        unchanged,
                        source: DatasetMetadata { headers: Vec::new(), rows: Vec::new() },
                        target: DatasetMetadata { headers: Vec::new(), rows: Vec::new() },
                        key_columns: Vec::new(),
                        excluded_columns: Vec::new(),
                        mode: "primary-key".to_owned(),
                    };
                },
            };
            let mut i: usize = 0;
            while i < n_s
                invariant
                    i <= n_s,
                    n_s == self.source.rows@.len(),
                    self.wf(),
                    self.is_pk(),
                    tmap == self.target_map->0,
                    removed@.len() == self.count_removed(0, i as int),
                    forall|k: int|
                        0 <= k < removed@.len() ==> self.pk_removed_entry_ok(
                            #[trigger] removed@[k],
                            k,
                        ),
                decreases n_s - i,
            {
                let key = get_row_key(&self.source.rows[i], &self.source.header_map,
                    &self.key_columns, self.case_sensitive, self.ignore_whitespace,
                    self.ignore_empty_vs_null);
                proof {
                    assert(self.source.rows.deep_view()[i as int] == self.source.rows@[i as int].deep_view());
                    assert(key@ == self.skey(i as int));
                }
                if !tmap.contains_key(key.as_str()) {
                    let entry = RemovedRow {
                        key,
                        source_row: record_to_fields(&self.source.rows[i], &self.source.headers),
                    };
                    proof {
                        assert(self.removed_of(i as int));
                        assert(self.count_removed(0, i as int) == removed@.len());
                        assert(self.pk_removed_entry_ok(entry, removed@.len() as int));
                    }
                    removed.push(entry);
                }
                i = i + 1;
            }
        }
        DiffResult {
            added,
            removed,
            modified,
            unchanged,
            source: DatasetMetadata {
                headers: crate::parse::clone_string_vec(&self.source.headers),
                rows: Vec::new(),
            },
            target: DatasetMetadata {
                headers: crate::parse::clone_string_vec(&self.target.headers),
                rows: Vec::new(),
            },
            key_columns: crate::parse::clone_string_vec(&self.key_columns),
            excluded_columns: crate::parse::clone_string_vec(&self.excluded_columns),
            mode: "primary-key".to_owned(),
        }
    }

    /// Classifies the source rows `[chunk_start, chunk_start + chunk_size)`:
    /// first by exact fingerprint against the still-unmatched target rows,
    /// then by budgeted candidate search and similarity scoring; a source
    /// row with no accepted partner is removed.  On the chunk that reaches
    /// the last source row, every still-unmatched target row is added.
    pub fn diff_content_match_chunk(&mut self, chunk_start: usize, chunk_size: usize) -> (r:
        DiffResult)
        requires
            old(self).wf(),
            !old(self).is_pk(),
        ensures
            final(self).wf(),
            !final(self).is_pk(),
            final(self).source == old(self).source,
            final(self).target == old(self).target,
            final(self).key_columns == old(self).key_columns,
            final(self).excluded_columns == old(self).excluded_columns,
            final(self).mode == old(self).mode,
            final(self).case_sensitive == old(self).case_sensitive,
            final(self).ignore_whitespace == old(self).ignore_whitespace,
            final(self).ignore_empty_vs_null == old(self).ignore_empty_vs_null,
            final(self).source_map == old(self).source_map,
            final(self).target_map == old(self).target_map,
            final(self).target_value_lookup == old(self).target_value_lookup,
            final(self).matched_targets@.len() == old(self).matched_targets@.len(),
            forall|w: int|
                0 <= w < old(self).matched_targets@.len() && old(self).matched_targets@[w]
                    ==> final(self).matched_targets@[w],
            ({
                let s = clamp(chunk_start as int, old(self).n_s());
                let e = clamp(chunk_start as int + chunk_size as int, old(self).n_s());
                &&& r.removed@.len() + r.modified@.len() + r.unchanged@.len() == e - s
                &&& count_true(final(self).matched_targets@) == count_true(
                    old(self).matched_targets@,
                ) + r.modified@.len() + r.unchanged@.len()
                &&& forall|k: int|
                    0 <= k < r.modified@.len() ==> old(self).cm_modified_entry_ok(
                        #[trigger] r.modified@[k],
                        s,
                        e,
                        final(self).matched_targets@,
                    )
                &&& forall|k: int|
                    0 <= k < r.unchanged@.len() ==> old(self).cm_unchanged_entry_ok(
                        #[trigger] r.unchanged@[k],
                        s,
                        e,
                    )
                &&& forall|k: int|
                    0 <= k < r.removed@.len() ==> old(self).cm_removed_entry_ok(
                        #[trigger] r.removed@[k],
                        s,
                        e,
                        k,
                        final(self).matched_targets@,
                    )
                &&& r.added@.len() == (if e == old(self).n_s() {
                    old(self).n_t() - count_true(final(self).matched_targets@)
                } else {
                    0int
                })
                &&& e == old(self).n_s() ==> (forall|k: int|
                    0 <= k < r.added@.len() ==> old(self).cm_added_entry_ok(
                        #[trigger] r.added@[k],
                        k,
                        final(self).matched_targets@,
                    ))
            }),
            r.mode@ == "content-match"@,
            r.key_columns@.len() == 0,
            r.excluded_columns.deep_view() == old(self).excluded_columns.deep_view(),
            r.source.headers.deep_view() == old(self).source.headers.deep_view(),
            r.target.headers.deep_view() == old(self).target.headers.deep_view(),
            r.source.rows@.len() == 0,
            r.target.rows@.len() == 0,
    {
        let cs = self.case_sensitive;
        let iw = self.ignore_whitespace;
        let ien = self.ignore_empty_vs_null;
        let n_s = self.source.rows.len();
        let n_t = self.target.rows.len();
        let s: usize = if chunk_start <= n_s {
            chunk_start
        } else {
            n_s
        };
        let e: usize = if chunk_size <= n_s - s && chunk_start <= n_s {
            chunk_start + chunk_size
        } else {
            n_s
        };
        proof {
            assert(s as int == clamp(chunk_start as int, old(self).n_s()));
            assert(e as int == clamp(chunk_start as int + chunk_size as int, old(self).n_s()));
        }
        let mut added: Vec<AddedRow> = Vec::new();
        let mut removed: Vec<RemovedRow> = Vec::new();
        let mut modified: Vec<ModifiedRow> = Vec::new();
        let mut unchanged: Vec<UnchangedRow> = Vec::new();
        let mut fpl = match self.target_fingerprint_lookup.take() {
            Some(f) => f,
            None => {
                // unreachable: the invariant guarantees the index in this mode
                proof {
                    assert(false);
                }
                return DiffResult {
                    added,
                    removed,
                    modified,
                    unchanged,
                    source: DatasetMetadata { headers: Vec::new(), rows: Vec::new() },
                    target: DatasetMetadata { headers: Vec::new(), rows: Vec::new() },
                    key_columns: Vec::new(),
                    excluded_columns: Vec::new(),
                    mode: "content-match".to_owned(),
                };
            },
        };
        let mut i: usize = s;
        while i < e
            invariant
                s <= i <= e <= n_s,
                n_s == self.source.rows@.len(),
                n_t == self.target.rows@.len(),
                self.source.wf(),
                self.target.wf(),
                !self.is_pk(),
                self.target_fingerprint_lookup is None,
                forall|k: Seq<char>, w: int|
                    fpl@.contains_key(k) && 0 <= w < fpl@[k]@.len() ==> (#[trigger] fpl@[k]@[w] as int)
                        < n_t && fp_spec(self.target.rows.deep_view()[fpl@[k]@[w] as int],
                        self.target.header_map@, self.source.headers.deep_view(),
                        self.excluded_columns.deep_view(), cs, iw, ien) == k,
                forall|c2: int, k: Seq<char>, w: int|
                    0 <= c2 < self.target_value_lookup@.len()
                        && self.target_value_lookup@[c2]@.contains_key(k) && 0 <= w
                        < self.target_value_lookup@[c2]@[k]@.len() ==> (#[trigger]
                    self.target_value_lookup@[c2]@[k]@[w] as int) < n_t,
                self.source == old(self).source,
                self.target == old(self).target,
                self.key_columns == old(self).key_columns,
                self.excluded_columns == old(self).excluded_columns,
                self.mode == old(self).mode,
                self.case_sensitive == old(self).case_sensitive,
                self.ignore_whitespace == old(self).ignore_whitespace,
                self.ignore_empty_vs_null == old(self).ignore_empty_vs_null,
                self.source_map == old(self).source_map,
                self.target_map == old(self).target_map,
                self.target_value_lookup == old(self).target_value_lookup,
                cs == self.case_sensitive,
                iw == self.ignore_whitespace,
                ien == self.ignore_empty_vs_null,
                self.matched_targets@.len() == old(self).matched_targets@.len(),
                self.matched_targets@.len() == n_t,
                forall|w: int|
                    0 <= w < n_t && old(self).matched_targets@[w] ==> self.matched_targets@[w],
                removed@.len() + modified@.len() + unchanged@.len() == i - s,
                count_true(self.matched_targets@) == count_true(old(self).matched_targets@)
                    + modified@.len() + unchanged@.len(),
                added@.len() == 0,
                forall|k: int|
                    0 <= k < modified@.len() ==> old(self).cm_modified_entry_ok(
                        #[trigger] modified@[k],
                        s as int,
                        e as int,
                        self.matched_targets@,
                    ),
                forall|k: int|
                    0 <= k < unchanged@.len() ==> old(self).cm_unchanged_entry_ok(
                        #[trigger] unchanged@[k],
                        s as int,
                        e as int,
                    ),
                forall|k: int|
                    0 <= k < removed@.len() ==> old(self).cm_removed_entry_ok(
                        #[trigger] removed@[k],
                        s as int,
                        e as int,
                        k,
                        self.matched_targets@,
                    ),
                forall|j: int|
                    0 <= j < n_t && !(#[trigger] self.matched_targets@[j]) ==> fpl@.contains_key(
                        self.tgt_fp(j),
                    ) && in_bucket(fpl@[self.tgt_fp(j)]@, j),
            decreases e - i,
        {
            let fp = get_row_fingerprint(&self.source.rows[i], &self.source.headers,
                &self.source.header_map, cs, iw, ien, &self.excluded_columns);
            proof {
                assert(self.source.rows.deep_view()[i as int] == self.source.rows@[i as int].deep_view());
                assert(fp@ == self.src_fp(i as int));
            }
            let mut exact_match: Option<usize> = None;
            match fpl.get(fp.as_str()) {
                Some(b) => {
                    let mut bucket = copy_indices(b);
                    proof {
                        assert(fpl@.contains_key(fp@));
                    }
                    loop
                        invariant_except_break
                            exact_match is None,
                            self.matched_targets@.len() == n_t,
                            n_t == self.target.rows@.len(),
                            forall|w: int|
                                0 <= w < bucket@.len() ==> (#[trigger] bucket@[w] as int) < n_t
                                    && self.tgt_fp(bucket@[w] as int) == fp@,
                            forall|j: int|
                                0 <= j < n_t && !(#[trigger] self.matched_targets@[j])
                                    && self.tgt_fp(j) == fp@ ==> in_bucket(bucket@, j),
                        ensures
                            self.matched_targets@.len() == n_t,
                            forall|w: int|
                                0 <= w < bucket@.len() ==> (#[trigger] bucket@[w] as int) < n_t
                                    && self.tgt_fp(bucket@[w] as int) == fp@,
                            exact_match is Some ==> (exact_match->0 as int) < n_t
                                && !self.matched_targets@[exact_match->0 as int] && self.tgt_fp(
                                exact_match->0 as int,
                            ) == fp@,
                            exact_match is None ==> bucket@.len() == 0,
                            forall|j: int|
                                0 <= j < n_t && !(#[trigger] self.matched_targets@[j])
                                    && self.tgt_fp(j) == fp@ ==> (in_bucket(bucket@, j) || (
                                exact_match is Some && (exact_match->0 as int) == j)),
                        decreases bucket@.len(),
                    {
                        let ghost prev = bucket@;
                        match bucket.pop() {
                            Some(idx) => {
                                if !self.matched_targets[idx] {
                                    exact_match = Some(idx);
                                    proof {
                                        assert forall|j: int|
                                            0 <= j < n_t && !(#[trigger] self.matched_targets@[j])
                                                && self.tgt_fp(j) == fp@ implies (in_bucket(
                                            bucket@,
                                            j,
                                        ) || j == idx as int) by {
                                            if j != idx as int {
                                                let w = choose|w: int|
                                                    0 <= w < prev.len() && (#[trigger] prev[w] as int)
                                                        == j;
                                                assert(w < prev.len() - 1);
                                                assert(bucket@[w] as int == j);
                                            }
                                        }
                                    }
                                    break ;
                                } else {
                                    proof {
                                        assert forall|j: int|
                                            0 <= j < n_t && !(#[trigger] self.matched_targets@[j])
                                                && self.tgt_fp(j) == fp@ implies in_bucket(
                                            bucket@,
                                            j,
                                        ) by {
                                            let w = choose|w: int|
                                                0 <= w < prev.len() && (#[trigger] prev[w] as int)
                                                    == j;
                                            assert(j != idx as int);
                                            assert(w < prev.len() - 1);
                                            assert(bucket@[w] as int == j);
                                        }
                                    }
                                }
                            },
                            None => {
                                break ;
                            },
                        }
                    }
                    let fp2 = fp.clone();
                    fpl.insert(fp2, bucket);
                    proof {
                        assert forall|j: int|
                            0 <= j < n_t && !(#[trigger] self.matched_targets@[j]) implies ((
                        fpl@.contains_key(self.tgt_fp(j)) && in_bucket(fpl@[self.tgt_fp(j)]@, j))
                            || (exact_match is Some && (exact_match->0 as int) == j)) by {
                            if !(exact_match is Some && (exact_match->0 as int) == j) {
                                if self.tgt_fp(j) == fp@ {
                                    assert(in_bucket(fpl@[self.tgt_fp(j)]@, j));
                                }
                            }
                        }
                        assert(exact_match is None ==> forall|j: int|
                            0 <= j < n_t && !(#[trigger] self.matched_targets@[j])
                                ==> self.tgt_fp(j) != fp@);
                    }
                },
                None => {
                    proof {
                        assert forall|j: int|
                            0 <= j < n_t && !(#[trigger] self.matched_targets@[j]) implies self.tgt_fp(
                            j,
                        ) != fp@ by {
                            if self.tgt_fp(j) == fp@ {
                                assert(fpl@.contains_key(fp@));
                            }
                        }
                    }
                },
            }
            match exact_match {
                Some(jm) => {
                    let mut key = "Row ".to_owned();
                    let d = dec_string(i + 1);
                    key.append(d.as_str());
                    let entry = UnchangedRow {
                        key,
                        row: record_to_fields(&self.source.rows[i], &self.source.headers),
                    };
                    proof {
                        assert(old(self).src_fp(i as int) == old(self).tgt_fp(jm as int));
                        assert(entry.key@ == "Row "@ + crate::text::dec_spec(i as int + 1));
                        assert(old(self).cm_unchanged_entry_ok(entry, s as int, e as int));
                        lemma_count_true_update(self.matched_targets@, jm as int);
                    }
                    unchanged.push(entry);
                    let ghost prev_matched = self.matched_targets@;
                    self.matched_targets.set(jm, true);
                    proof {
                        assert forall|k: int| 0 <= k < removed@.len() implies old(
                            self,
                        ).cm_removed_entry_ok(#[trigger] removed@[k], s as int, e as int, k,
                            self.matched_targets@) by {
                            lemma_removed_entry_monotone(*old(self), removed@[k], s as int,
                                e as int, k, prev_matched, self.matched_targets@);
                        }
                        assert forall|k: int| 0 <= k < modified@.len() implies old(
                            self,
                        ).cm_modified_entry_ok(#[trigger] modified@[k], s as int, e as int,
                            self.matched_targets@) by {
                            lemma_modified_entry_monotone(*old(self), modified@[k], s as int,
                                e as int, prev_matched, self.matched_targets@);
                        }
                        assert forall|j: int|
                            0 <= j < n_t && !(#[trigger] self.matched_targets@[j]) implies fpl@.contains_key(
                            self.tgt_fp(j),
                        ) && in_bucket(fpl@[self.tgt_fp(j)]@, j) by {
                            assert(!prev_matched[j] && j != jm as int);
                        }
                    }
                },
                None => {
                    // candidate gathering over the inverted index, under the
                    // work budget
                    let mut cands: Vec<usize> = Vec::new();
                    let mut ccnt: Vec<u64> = Vec::new();
                    let mut budget: usize = CANDIDATE_BUDGET;
                    let mut c: usize = 0;
                    while c < self.source.headers.len()
                        invariant
                            self.source.wf(),
                            self.target.wf(),
                            !self.is_pk(),
                            forall|c2: int, k: Seq<char>, w: int|
                                0 <= c2 < self.target_value_lookup@.len()
                                    && self.target_value_lookup@[c2]@.contains_key(k) && 0 <= w
                                    < self.target_value_lookup@[c2]@[k]@.len() ==> (#[trigger]
                                self.target_value_lookup@[c2]@[k]@[w] as int) < n_t,
                            i < e <= n_s,
                            n_s == self.source.rows@.len(),
                            n_t == self.target.rows@.len(),
                            self.matched_targets@.len() == n_t,
                            self.source == old(self).source,
                            self.target == old(self).target,
                            self.excluded_columns == old(self).excluded_columns,
                            self.target_value_lookup == old(self).target_value_lookup,
                            cands@.len() == ccnt@.len(),
                            forall|w: int|
                                0 <= w < cands@.len() ==> (#[trigger] cands@[w] as int) < n_t
                                    && !self.matched_targets@[cands@[w] as int],
                        decreases self.source.headers@.len() - c,
                    {
                        let header = &self.source.headers[c];
                        if !contains_str(&self.excluded_columns, header.as_str()) {
                            let row = &self.source.rows[i];
                            if c < row.len() {
                                let cell = &row[c];
                                let cv = chars_of(cell.as_str());
                                let tv = trim_chars(&cv);
                                if tv.len() > 0 {
                                    match self.target.header_map.get(header.as_str()) {
                                        Some(tc) => {
                                            if *tc < self.target_value_lookup.len() {
                                                let nv = normalize_value_cow(cell.as_str(), cs,
                                                    iw, ien);
                                                match self.target_value_lookup[*tc].get(
                                                    nv.as_str(),
                                                ) {
                                                    Some(b) => {
                                                        if b.len() <= MAX_BUCKET && b.len()
                                                            <= budget {
                                                            budget = budget - b.len();
                                                            let bucket = copy_indices(b);
                                                            proof {
                                                                assert(self.target_value_lookup@[*tc as int]@.contains_key(
                                                                    nv@,
                                                                ));
                                                                assert(forall|w: int|
                                                                    0 <= w < bucket@.len() ==> (
                                                                    #[trigger] bucket@[w] as int)
                                                                        < n_t);
                                                            }
                                                            let mut w: usize = 0;
                                                            while w < bucket.len()
                                                                invariant
                                                                    w <= bucket@.len(),
                                                                    n_t
                                                                        == self.target.rows@.len(),
                                                                    self.matched_targets@.len()
                                                                        == n_t,
                                                                    cands@.len() == ccnt@.len(),
                                                                    forall|x: int|
                                                                        0 <= x < bucket@.len()
                                                                            ==> (#[trigger] bucket@[x] as int)
                                                                            < n_t,
                                                                    forall|x: int|
                                                                        0 <= x < cands@.len() ==> (
                                                                        #[trigger] cands@[x] as int)
                                                                            < n_t
                                                                            && !self.matched_targets@[cands@[x] as int],
                                                                decreases bucket@.len() - w,
                                                            {
                                                                let idx = bucket[w];
                                                                if !self.matched_targets[idx] {
                                                                    let mut found: bool = false;
                                                                    let mut x: usize = 0;
                                                                    while x < cands.len()
                                                                        invariant
                                                                            x <= cands@.len(),
                                                                            cands@.len()
                                                                                == ccnt@.len(),
                                                                        decreases cands@.len() - x,
                                                                    {
                                                                        if cands[x] == idx {
                                                                            found = true;
                                                                            let c0 = ccnt[x];
                                                                            if c0 < 0xFFFF_FFFF {
                                                                                ccnt.set(x, c0 + 1);
                                                                            }
                                                                            break ;
                                                                        }
                                                                        x = x + 1;
                                                                    }
                                                                    if !found {
                                                                        cands.push(idx);
                                                                        ccnt.push(1);
                                                                    }
                                                                }
                                                                w = w + 1;
                                                            }
                                                        }
                                                    },
                                                    None => {
                                                    },
                                                }
                                            }
                                        },
                                        None => {
                                        },
                                    }
                                }
                            }
                        }
                        c = c + 1;
                    }
                    // keep only the best-ranked candidates
                    let mut taken: Vec<bool> = Vec::new();
                    let mut t0: usize = 0;
                    while t0 < cands.len()
                        invariant
                            taken@.len() == t0,
                            t0 <= cands@.len(),
                        decreases cands@.len() - t0,
                    {
                        taken.push(false);
                        t0 = t0 + 1;
                    }
                    let mut shortlist: Vec<usize> = Vec::new();
                    let mut slot: usize = 0;
                    while slot < TOP_K
                        invariant
                            taken@.len() == cands@.len(),
                            cands@.len() == ccnt@.len(),
                            n_t == self.target.rows@.len(),
                            self.matched_targets@.len() == n_t,
                            forall|x: int|
                                0 <= x < cands@.len() ==> (#[trigger] cands@[x] as int) < n_t
                                    && !self.matched_targets@[cands@[x] as int],
                            forall|x: int|
                                0 <= x < shortlist@.len() ==> (#[trigger] shortlist@[x] as int)
                                    < n_t && !self.matched_targets@[shortlist@[x] as int],
                        decreases TOP_K - slot,
                    {
                        let mut best_w: usize = 0;
                        let mut have: bool = false;
                        let mut w: usize = 0;
                        while w < cands.len()
                            invariant
                                w <= cands@.len(),
                                cands@.len() == ccnt@.len(),
                                taken@.len() == cands@.len(),
                                have ==> best_w < cands@.len(),
                            decreases cands@.len() - w,
                        {
                            if !taken[w] {
                                if !have {
                                    have = true;
                                    best_w = w;
                                } else {
                                    if ccnt[w] > ccnt[best_w] || (ccnt[w] == ccnt[best_w]
                                        && cands[w] < cands[best_w]) {
                                        best_w = w;
                                    }
                                }
                            }
                            w = w + 1;
                        }
                        if !have {
                            break ;
                        }
                        taken.set(best_w, true);
                        shortlist.push(cands[best_w]);
                        slot = slot + 1;
                    }
                    // score the shortlist
                    let mut best_j: usize = 0;
                    let mut best_sim: u64 = 0;
                    let mut have_best: bool = false;
                    let mut w: usize = 0;
                    while w < shortlist.len()
                        invariant
                            w <= shortlist@.len(),
                            n_s == self.source.rows@.len(),
                            n_t == self.target.rows@.len(),
                            i < n_s,
                            self.matched_targets@.len() == n_t,
                            self.source.wf(),
                            self.target.wf(),
                            self.source == old(self).source,
                            self.target == old(self).target,
                            self.excluded_columns == old(self).excluded_columns,
                            cs == self.case_sensitive,
                            iw == self.ignore_whitespace,
                            ien == self.ignore_empty_vs_null,
                            forall|x: int|
                                0 <= x < shortlist@.len() ==> (#[trigger] shortlist@[x] as int)
                                    < n_t && !self.matched_targets@[shortlist@[x] as int],
                            have_best ==> (best_j as int) < n_t
                                && !self.matched_targets@[best_j as int] && best_sim as int
                                == self.sim_of(i as int, best_j as int),
                        decreases shortlist@.len() - w,
                    {
                        let j2 = shortlist[w];
                        let sim = calculate_row_similarity(&self.source.rows[i],
                            &self.target.rows[j2], &self.source.headers, &self.source.header_map,
                            &self.target.header_map, &self.excluded_columns, cs, iw, ien);
                        proof {
                            assert(self.source.rows.deep_view()[i as int] == self.source.rows@[i as int].deep_view());
                            assert(self.target.rows.deep_view()[j2 as int] == self.target.rows@[j2 as int].deep_view());
                            assert(sim as int == self.sim_of(i as int, j2 as int));
                        }
                        if !have_best || sim > best_sim || (sim == best_sim && j2 < best_j) {
                            have_best = true;
                            best_j = j2;
                            best_sim = sim;
                        }
                        w = w + 1;
                    }
                    if have_best && best_sim > SIMILARITY_THRESHOLD {
                        let differences = build_differences(&self.source.rows[i],
                            &self.target.rows[best_j], &self.source.headers,
                            &self.source.header_map, &self.target.header_map,
                            &self.excluded_columns, cs, iw, ien);
                        proof {
                            assert(differences@.len() == self.diffs_of(i as int, best_j as int).len());
                        }
                        let mut key = "Row ".to_owned();
                        let d = dec_string(i + 1);
                        key.append(d.as_str());
                        if differences.len() > 0 {
                            let entry = ModifiedRow {
                                key,
                                source_row: record_to_fields(&self.source.rows[i],
                                    &self.source.headers),
                                target_row: record_to_fields(&self.target.rows[best_j],
                                    &self.target.headers),
                                differences,
                            };
                            proof {
                                assert(self.source.rows.deep_view()[i as int]
                                    == old(self).source.rows.deep_view()[i as int]);
                                assert(is_fields_of(entry.source_row@,
                                    old(self).source.headers.deep_view(),
                                    old(self).source.rows.deep_view()[i as int]));
                                assert(is_fields_of(entry.target_row@,
                                    old(self).target.headers.deep_view(),
                                    old(self).target.rows.deep_view()[best_j as int]));
                                assert(old(self).sim_of(i as int, best_j as int)
                                    > SIMILARITY_THRESHOLD as int);
                                assert(entry.key@ == "Row "@ + crate::text::dec_spec(
                                    i as int + 1,
                                ));
                                assert(differences_ok(entry.differences@,
                                    old(self).source.rows.deep_view()[i as int],
                                    old(self).target.rows.deep_view()[best_j as int],
                                    old(self).source.headers.deep_view(),
                                    old(self).source.header_map@, old(self).target.header_map@,
                                    old(self).excluded_columns.deep_view(), cs, iw, ien));
                                assert forall|w: int|
                                    0 <= w < n_t && !(
                                    #[trigger] self.matched_targets@[w]) implies old(
                                    self,
                                ).tgt_fp(w) != old(self).src_fp(i as int) by {
                                    assert(self.tgt_fp(w) != fp@);
                                }
                                assert(old(self).cm_modified_entry_ok(entry, s as int, e as int,
                                    self.matched_targets@));
                                lemma_count_true_update(self.matched_targets@, best_j as int);
                            }
                            modified.push(entry);
                        } else {
                            let entry = UnchangedRow {
                                key,
                                row: record_to_fields(&self.source.rows[i], &self.source.headers),
                            };
                            proof {
                                assert(is_fields_of(entry.row@,
                                    old(self).source.headers.deep_view(),
                                    old(self).source.rows.deep_view()[i as int]));
                                assert(entry.key@ == "Row "@ + crate::text::dec_spec(
                                    i as int + 1,
                                ));
                                assert(old(self).sim_of(i as int, best_j as int)
                                    > SIMILARITY_THRESHOLD as int);
                                assert(old(self).diffs_of(i as int, best_j as int).len() == 0);
                                assert(old(self).src_fp(i as int) == old(self).src_fp(i as int)
                                    && old(self).tgt_fp(best_j as int) == old(self).tgt_fp(
                                    best_j as int,
                                ));
                                assert(old(self).cm_unchanged_entry_ok(entry, s as int, e as int));
                                lemma_count_true_update(self.matched_targets@, best_j as int);
                            }
                            unchanged.push(entry);
                        }
                        let ghost prev_matched = self.matched_targets@;
                        self.matched_targets.set(best_j, true);
                        proof {
                            assert forall|k: int| 0 <= k < removed@.len() implies old(
                                self,
                            ).cm_removed_entry_ok(#[trigger] removed@[k], s as int, e as int, k,
                                self.matched_targets@) by {
                                lemma_removed_entry_monotone(*old(self), removed@[k], s as int,
                                    e as int, k, prev_matched, self.matched_targets@);
                            }
                            assert forall|k: int| 0 <= k < modified@.len() implies old(
                                self,
                            ).cm_modified_entry_ok(#[trigger] modified@[k], s as int, e as int,
                                self.matched_targets@) by {
                                lemma_modified_entry_monotone(*old(self), modified@[k], s as int,
                                    e as int, prev_matched, self.matched_targets@);
                            }
                            assert forall|j: int|
                                0 <= j < n_t && !(#[trigger] self.matched_targets@[j]) implies fpl@.contains_key(
                                self.tgt_fp(j),
                            ) && in_bucket(fpl@[self.tgt_fp(j)]@, j) by {
                                assert(!prev_matched[j] && j != best_j as int);
                            }
                        }
                    } else {
                        let mut key = "Removed ".to_owned();
                        proof {
                            assert(removed@.len() <= i - s);
                        }
                        let d = dec_string(removed.len() + 1);
                        key.append(d.as_str());
                        let entry = RemovedRow {
                            key,
                            source_row: record_to_fields(&self.source.rows[i],
                                &self.source.headers),
                        };
                        proof {
                            assert forall|j: int|
                                0 <= j < n_t && !(#[trigger] self.matched_targets@[j]) implies old(
                                self,
                            ).tgt_fp(j) != old(self).src_fp(i as int) by {
                                assert(self.tgt_fp(j) != fp@);
                            }
                            assert(entry.key@ == "Removed "@ + crate::text::dec_spec(
                                removed@.len() as int + 1,
                            ));
                            assert(old(self).cm_removed_entry_ok(entry, s as int, e as int,
                                removed@.len() as int, self.matched_targets@));
                        }
                        removed.push(entry);
                    }
                },
            }
            i = i + 1;
        }
        self.target_fingerprint_lookup = Some(fpl);
        if e >= n_s {
            let mut j: usize = 0;
            while j < n_t
                invariant
                    j <= n_t,
                    n_t == self.target.rows@.len(),
                    self.wf(),
                    self.source == old(self).source,
                    self.target == old(self).target,
                    self.matched_targets@.len() == n_t,
                    added@.len() == j - count_true(self.matched_targets@.take(j as int)),
                    forall|k: int|
                        0 <= k < added@.len() ==> old(self).cm_added_entry_ok(
                            #[trigger] added@[k],
                            k,
                            self.matched_targets@,
                        ),
                decreases n_t - j,
            {
                proof {
                    assert(self.matched_targets@.take(j as int + 1).drop_last()
                        =~= self.matched_targets@.take(j as int));
                    assert(self.matched_targets@.take(j as int + 1).last()
                        == self.matched_targets@[j as int]);
                    lemma_count_true_bounds(self.matched_targets@.take(j as int));
                }
                if !self.matched_targets[j] {
                    let mut key = "Added ".to_owned();
                    let d = dec_string(added.len() + 1);
                    key.append(d.as_str());
                    let entry = AddedRow {
                        key,
                        target_row: record_to_fields(&self.target.rows[j], &self.target.headers),
                    };
                    proof {
                        assert(self.target.rows.deep_view()[j as int] == self.target.rows@[j as int].deep_view());
                        assert(entry.key@ == "Added "@ + crate::text::dec_spec(
                            added@.len() as int + 1,
                        ));
                        assert(j as int - count_true(self.matched_targets@.take(j as int))
                            == added@.len() as int);
                        assert(old(self).cm_added_entry_ok(entry, added@.len() as int,
                            self.matched_targets@));
                    }
                    added.push(entry);
                }
                j = j + 1;
            }
            proof {
                assert(self.matched_targets@.take(n_t as int) =~= self.matched_targets@);
            }
        }
        DiffResult {
            added,
            removed,
            modified,
            unchanged,
            source: DatasetMetadata {
                headers: crate::parse::clone_string_vec(&self.source.headers),
                rows: Vec::new(),
            },
            target: DatasetMetadata {
                headers: crate::parse::clone_string_vec(&self.target.headers),
                rows: Vec::new(),
            },
            key_columns: Vec::new(),
            excluded_columns: crate::parse::clone_string_vec(&self.excluded_columns),
            mode: "content-match".to_owned(),
        }
    }

    /// Runs one chunk in the session's mode: primary-key mode classifies
    /// target rows against the key maps and leaves the session untouched;
    /// content-match mode drains source rows against the shrinking unmatched
    /// target set.
    pub fn diff_chunk(&mut self, chunk_start: usize, chunk_size: usize) -> (r: Result<
        DiffResult,
        DiffError,
    >)
        requires
            old(self).wf(),
        ensures
            r is Ok,
            final(self).wf(),
            final(self).is_pk() == old(self).is_pk(),
            old(self).is_pk() ==> *final(self) == *old(self),
            old(self).is_pk() ==> ({
                let res = r->Ok_0;
                let s = clamp(chunk_start as int, old(self).n_t());
                let e = clamp(chunk_start as int + chunk_size as int, old(self).n_t());
                &&& res.added@.len() == old(self).count_class(RowClass::Added, s, e)
                &&& res.modified@.len() == old(self).count_class(RowClass::Modified, s, e)
                &&& res.unchanged@.len() == old(self).count_class(RowClass::Unchanged, s, e)
                &&& res.removed@.len() == (if e == old(self).n_t() {
                    old(self).count_removed(0, old(self).n_s())
                } else {
                    0int
                })
                &&& forall|k: int|
                    0 <= k < res.added@.len() ==> old(self).pk_added_entry_ok(
                        #[trigger] res.added@[k],
                        s,
                        e,
                        k,
                    )
                &&& forall|k: int|
                    0 <= k < res.modified@.len() ==> old(self).pk_modified_entry_ok(
                        #[trigger] res.modified@[k],
                        s,
                        e,
                        k,
                    )
                &&& forall|k: int|
                    0 <= k < res.unchanged@.len() ==> old(self).pk_unchanged_entry_ok(
                        #[trigger] res.unchanged@[k],
                        s,
                        e,
                        k,
                    )
                &&& forall|k: int|
                    0 <= k < res.removed@.len() ==> old(self).pk_removed_entry_ok(
                        #[trigger] res.removed@[k],
                        k,
                    )
            }),
            !old(self).is_pk() ==> ({
                let res = r->Ok_0;
                let s = clamp(chunk_start as int, old(self).n_s());
                let e = clamp(chunk_start as int + chunk_size as int, old(self).n_s());
                &&& final(self).matched_targets@.len() == old(self).matched_targets@.len()
                &&& res.removed@.len() + res.modified@.len() + res.unchanged@.len() == e - s
                &&& count_true(final(self).matched_targets@) == count_true(
                    old(self).matched_targets@,
                ) + res.modified@.len() + res.unchanged@.len()
                &&& forall|k: int|
                    0 <= k < res.modified@.len() ==> old(self).cm_modified_entry_ok(
                        #[trigger] res.modified@[k],
                        s,
                        e,
                        final(self).matched_targets@,
                    )
                &&& forall|k: int|
                    0 <= k < res.unchanged@.len() ==> old(self).cm_unchanged_entry_ok(
                        #[trigger] res.unchanged@[k],
                        s,
                        e,
                    )
                &&& forall|k: int|
                    0 <= k < res.removed@.len() ==> old(self).cm_removed_entry_ok(
                        #[trigger] res.removed@[k],
                        s,
                        e,
                        k,
                        final(self).matched_targets@,
                    )
                &&& res.added@.len() == (if e == old(self).n_s() {
                    old(self).n_t() - count_true(final(self).matched_targets@)
                } else {
                    0int
                })
                &&& e == old(self).n_s() ==> (forall|k: int|
                    0 <= k < res.added@.len() ==> old(self).cm_added_entry_ok(
                        #[trigger] res.added@[k],
                        k,
                        final(self).matched_targets@,
                    ))
            }),
    {
        if str_eq(self.mode.as_str(), "primary-key") {
            Ok(self.diff_primary_key_chunk(chunk_start, chunk_size))
        } else {
            Ok(self.diff_content_match_chunk(chunk_start, chunk_size))
        }
    }
}

} // verus!
