//! The one-shot content-match diff, and the sequential conflict resolver
//! concurrent drivers use to keep every row in at most one match.

use vstd::prelude::*;
use crate::engine::{
    CsvDifferInternal, clamp, is_pk_mode, count_true, SIMILARITY_THRESHOLD, headers_aligned,
    lemma_count_true_bounds, lemma_count_true_full, lemma_count_true_update,
};
use crate::primary_key::{snapshot_ok, snapshot_rows};
use crate::parse::{csv_ok, csv_table, resolved_headers, resolved_rows, header_map_spec};
use crate::types::{DiffError, DiffResult};

verus! {

/// Diffs two raw texts by content: exact fingerprint matching first, then
/// budgeted fuzzy matching above the similarity threshold.  Every source row
/// lands in exactly one of removed, modified or unchanged, and every target
/// row in exactly one of added, modified or unchanged.
pub fn diff_csv_internal(source_csv: &str, target_csv: &str, case_sensitive: bool,
    ignore_whitespace: bool, ignore_empty_vs_null: bool, excluded_columns: Vec<String>,
    has_headers: bool) -> (r: Result<DiffResult, DiffError>)
    ensures
        r is Ok <==> csv_ok(source_csv@) && csv_ok(target_csv@),
        r is Err ==> r->Err_0 is Parse,
        r is Ok ==> ({
            let res = r->Ok_0;
            &&& res.removed@.len() + res.modified@.len() + res.unchanged@.len() == resolved_rows(
                csv_table(source_csv@),
                has_headers,
            ).len()
            &&& res.added@.len() + res.modified@.len() + res.unchanged@.len() == resolved_rows(
                csv_table(target_csv@),
                has_headers,
            ).len()
            &&& res.mode@ == "content-match"@
        }),
        r is Ok ==> (exists|d: CsvDifferInternal, matched_after: Seq<bool>|
            #![trigger d.wf(), matched_after.len()]
            {
                let res = r->Ok_0;
                &&& d.wf()
                &&& matched_after.len() == d.n_t()
                &&& !d.is_pk()
                &&& d.case_sensitive == case_sensitive
                &&& d.ignore_whitespace == ignore_whitespace
                &&& d.ignore_empty_vs_null == ignore_empty_vs_null
                &&& d.excluded_columns.deep_view() == excluded_columns.deep_view()
                &&& d.source.headers.deep_view() == resolved_headers(
                    csv_table(source_csv@),
                    has_headers,
                )
                &&& d.source.rows.deep_view() == resolved_rows(csv_table(source_csv@), has_headers)
                &&& d.target.rows.deep_view() == resolved_rows(csv_table(target_csv@), has_headers)
                &&& d.target.headers.deep_view() == (if headers_aligned(
                    resolved_headers(csv_table(source_csv@), has_headers),
                    resolved_headers(csv_table(target_csv@), has_headers),
                ) {
                    resolved_headers(csv_table(source_csv@), has_headers)
                } else {
                    resolved_headers(csv_table(target_csv@), has_headers)
                })
                &&& d.source.header_map@ == header_map_spec(d.source.headers.deep_view())
                &&& d.target.header_map@ == header_map_spec(d.target.headers.deep_view())
                &&& res.source.headers.deep_view() == d.source.headers.deep_view()
                &&& res.target.headers.deep_view() == d.target.headers.deep_view()
                &&& snapshot_ok(res.source.rows@, d.source.headers.deep_view(),
                    d.source.rows.deep_view())
                &&& snapshot_ok(res.target.rows@, d.target.headers.deep_view(),
                    d.target.rows.deep_view())
                &&& count_true(matched_after) == res.modified@.len() + res.unchanged@.len()
                &&& forall|k: int|
                    0 <= k < res.modified@.len() ==> d.cm_modified_entry_ok(
                        #[trigger] res.modified@[k],
                        0,
                        d.n_s(),
                        matched_after,
                    )
                &&& forall|k: int|
                    0 <= k < res.unchanged@.len() ==> d.cm_unchanged_entry_ok(
                        #[trigger] res.unchanged@[k],
                        0,
                        d.n_s(),
                    )
                &&& forall|k: int|
                    0 <= k < res.removed@.len() ==> d.cm_removed_entry_ok(
                        #[trigger] res.removed@[k],
                        0,
                        d.n_s(),
                        k,
                        matched_after,
                    )
                &&& forall|k: int|
                    0 <= k < res.added@.len() ==> d.cm_added_entry_ok(
                        #[trigger] res.added@[k],
                        k,
                        matched_after,
                    )
            }),
{
    let mode = "content-match".to_owned();
    let key_columns: Vec<String> = Vec::new();
    let mut differ = match CsvDifferInternal::new(source_csv, target_csv, key_columns,
        case_sensitive, ignore_whitespace, ignore_empty_vs_null, excluded_columns, has_headers,
        mode) {
        Ok(d) => d,
        Err(e) => {
            proof {
                reveal_strlit("content-match");
                reveal_strlit("primary-key");
                assert(("content-match"@).len() == 13);
                assert(("primary-key"@).len() == 11);
                assert(!is_pk_mode("content-match"@));
                assert(!(csv_ok(source_csv@) && csv_ok(target_csv@)));
            }
            return Err(e);
        },
    };
    proof {
        reveal_strlit("content-match");
        reveal_strlit("primary-key");
        assert(("content-match"@).len() == 13);
        assert(("primary-key"@).len() == 11);
        assert(!is_pk_mode("content-match"@));
        assert(!differ.is_pk());
    }
    let ghost d0 = differ;
    let n_s = differ.source.rows.len();
    let mut result = differ.diff_content_match_chunk(0, n_s);
    result.source.rows = snapshot_rows(&differ.source.rows, &differ.source.headers);
    result.target.rows = snapshot_rows(&differ.target.rows, &differ.target.headers);
    proof {
        assert(clamp(0, d0.n_s()) == 0);
        assert(clamp(0 + n_s as int, d0.n_s()) == d0.n_s());
        crate::engine::lemma_count_true_bounds(differ.matched_targets@);
        let ghost ma = differ.matched_targets@;
        assert(d0.wf() && ma.len() == d0.n_t());
    }
    Ok(result)
}

/// A candidate pairing of one source row with one target row at a given
/// score.
pub struct ScoredPair {
    pub source_index: usize,
    pub target_index: usize,
    pub score: u64,
}

/// No source or target index appears twice among the chosen pairs.
pub open spec fn pairing_injective(chosen: Seq<ScoredPair>) -> bool {
    forall|a: int, b: int|
        0 <= a < b < chosen.len() ==> (#[trigger] chosen[a]).source_index != (
        #[trigger] chosen[b]).source_index && chosen[a].target_index != chosen[b].target_index
}

/// Resolves match conflicts sequentially: repeatedly accepts the
/// highest-scoring pair (ties to the lowest target index, then the lowest
/// source index) whose rows are both still free.  Every accepted pair comes
/// from the input, scores above the similarity threshold, and claims each
/// row at most once; every rejected pair either scores at or below the
/// threshold or conflicts with an accepted one.
pub fn resolve_matches(pairs: &Vec<ScoredPair>) -> (chosen: Vec<ScoredPair>)
    ensures
        pairing_injective(chosen@),
        forall|a: int|
            0 <= a < chosen@.len() ==> (exists|w: int|
                0 <= w < pairs@.len() && (#[trigger] chosen@[a]).source_index == (
                #[trigger] pairs@[w]).source_index && chosen@[a].target_index
                    == pairs@[w].target_index && chosen@[a].score == pairs@[w].score),
        forall|a: int|
            0 <= a < chosen@.len() ==> (#[trigger] chosen@[a]).score > SIMILARITY_THRESHOLD,
        forall|w: int|
            0 <= w < pairs@.len() && (#[trigger] pairs@[w]).score > SIMILARITY_THRESHOLD ==> (
            exists|a: int|
                0 <= a < chosen@.len() && ((#[trigger] chosen@[a]).source_index
                    == pairs@[w].source_index || chosen@[a].target_index
                    == pairs@[w].target_index)),
{
    let mut chosen: Vec<ScoredPair> = Vec::new();
    let mut used: Vec<bool> = Vec::new();
    let mut t: usize = 0;
    while t < pairs.len()
        invariant
            used@.len() == t,
            t <= pairs@.len(),
            forall|w: int| 0 <= w < t ==> !used@[w],
        decreases pairs@.len() - t,
    {
        used.push(false);
        t = t + 1;
    }
    let mut round: usize = 0;
    let mut done: bool = false;
    proof {
        lemma_count_true_bounds(used@);
    }
    while round < pairs.len() && !done
        invariant
            round <= pairs@.len(),
            used@.len() == pairs@.len(),
            round <= count_true(used@),
            pairing_injective(chosen@),
            forall|a: int|
                0 <= a < chosen@.len() ==> (exists|w: int|
                    0 <= w < pairs@.len() && (#[trigger] chosen@[a]).source_index == (
                    #[trigger] pairs@[w]).source_index && chosen@[a].target_index
                        == pairs@[w].target_index && chosen@[a].score == pairs@[w].score),
            forall|a: int|
                0 <= a < chosen@.len() ==> (#[trigger] chosen@[a]).score > SIMILARITY_THRESHOLD,
            forall|w: int|
                0 <= w < pairs@.len() && #[trigger] used@[w] ==> (exists|a: int|
                    0 <= a < chosen@.len() && ((#[trigger] chosen@[a]).source_index == (
                    pairs@[w]).source_index || chosen@[a].target_index
                        == pairs@[w].target_index)),
            forall|w: int|
                0 <= w < pairs@.len() && !(#[trigger] used@[w]) && pairs@[w].score
                    > SIMILARITY_THRESHOLD ==> (forall|a: int|
                    0 <= a < chosen@.len() ==> (#[trigger] chosen@[a]).source_index != (
                    pairs@[w]).source_index && chosen@[a].target_index
                        != pairs@[w].target_index),
            done ==> (forall|w: int|
                0 <= w < pairs@.len() && (#[trigger] pairs@[w]).score > SIMILARITY_THRESHOLD
                    ==> used@[w]),
        decreases pairs@.len() - round + (if done {
            0int
        } else {
            1int
        }),
    {
        // pick the best still-free pair above the threshold
        let mut best_w: usize = 0;
        let mut have: bool = false;
        let mut w: usize = 0;
        while w < pairs.len()
            invariant
                w <= pairs@.len(),
                used@.len() == pairs@.len(),
                have ==> best_w < pairs@.len() && !used@[best_w as int]
                    && pairs@[best_w as int].score > SIMILARITY_THRESHOLD,
                !have ==> (forall|x: int|
                    0 <= x < w ==> used@[x] || (#[trigger] pairs@[x]).score
                        <= SIMILARITY_THRESHOLD),
            decreases pairs@.len() - w,
        {
            if !used[w] {
                let p = &pairs[w];
                if p.score > SIMILARITY_THRESHOLD {
                    if !have {
                        have = true;
                        best_w = w;
                    } else {
                        let q = &pairs[best_w];
                        if p.score > q.score || (p.score == q.score && (p.target_index
                            < q.target_index || (p.target_index == q.target_index
                            && p.source_index < q.source_index))) {
                            best_w = w;
                        }
                    }
                }
            }
            w = w + 1;
        }
        if !have {
            done = true;
        } else {
            let picked = ScoredPair {
                source_index: pairs[best_w].source_index,
                target_index: pairs[best_w].target_index,
                score: pairs[best_w].score,
            };
            let ghost count0 = count_true(used@);
            // retire every pair that shares a row with the accepted one
            let mut x: usize = 0;
            while x < pairs.len()
                invariant
                    x <= pairs@.len(),
                    used@.len() == pairs@.len(),
                    picked.source_index == pairs@[best_w as int].source_index,
                    picked.target_index == pairs@[best_w as int].target_index,
                    picked.score == pairs@[best_w as int].score,
                    best_w < pairs@.len(),
                    pairs@[best_w as int].score > SIMILARITY_THRESHOLD,
                    count_true(used@) >= count0 + (if x > best_w {
                        1int
                    } else {
                        0int
                    }),
                    x <= best_w ==> !used@[best_w as int],
                    pairing_injective(chosen@),
                    forall|a: int|
                        0 <= a < chosen@.len() ==> (exists|ww: int|
                            0 <= ww < pairs@.len() && (#[trigger] chosen@[a]).source_index == (
                            #[trigger] pairs@[ww]).source_index && chosen@[a].target_index
                                == pairs@[ww].target_index && chosen@[a].score
                                == pairs@[ww].score),
                    forall|a: int|
                        0 <= a < chosen@.len() ==> (#[trigger] chosen@[a]).score
                            > SIMILARITY_THRESHOLD,
                    forall|a: int|
                        0 <= a < chosen@.len() ==> (#[trigger] chosen@[a]).source_index
                            != picked.source_index && chosen@[a].target_index
                            != picked.target_index,
                    forall|ww: int|
                        0 <= ww < pairs@.len() && #[trigger] used@[ww] ==> (exists|a: int|
                            0 <= a < chosen@.len() && ((#[trigger] chosen@[a]).source_index == (
                            pairs@[ww]).source_index || chosen@[a].target_index
                                == pairs@[ww].target_index)) || (ww < x && (
                        pairs@[ww].source_index == picked.source_index
                            || pairs@[ww].target_index == picked.target_index)),
                    forall|ww: int|
                        0 <= ww < pairs@.len() && !(#[trigger] used@[ww]) && pairs@[ww].score
                            > SIMILARITY_THRESHOLD ==> (forall|a: int|
                            0 <= a < chosen@.len() ==> (#[trigger] chosen@[a]).source_index != (
                            pairs@[ww]).source_index && chosen@[a].target_index
                                != pairs@[ww].target_index),
                    forall|ww: int|
                        0 <= ww < x && ((#[trigger] pairs@[ww]).source_index
                            == picked.source_index || pairs@[ww].target_index
                            == picked.target_index) ==> used@[ww],
                decreases pairs@.len() - x,
            {
                if pairs[x].source_index == picked.source_index || pairs[x].target_index
                    == picked.target_index {
                    proof {
                        lemma_count_true_update(used@, x as int);
                    }
                    used.set(x, true);
                }
                x = x + 1;
            }
            let ghost chosen0 = chosen@;
            chosen.push(picked);
            proof {
                assert forall|a: int, b: int| 0 <= a < b < chosen@.len() implies (
                #[trigger] chosen@[a]).source_index != (#[trigger] chosen@[b]).source_index
                    && chosen@[a].target_index != chosen@[b].target_index by {
                    if b == chosen@.len() - 1 {
                        assert(chosen@[a] == chosen0[a]);
                    }
                }
                assert forall|ww: int|
                    0 <= ww < pairs@.len() && #[trigger] used@[ww] implies (exists|a: int|
                    0 <= a < chosen@.len() && ((#[trigger] chosen@[a]).source_index == (
                    pairs@[ww]).source_index || chosen@[a].target_index
                        == pairs@[ww].target_index)) by {
                    if pairs@[ww].source_index == picked.source_index || pairs@[ww].target_index
                        == picked.target_index {
                        assert(chosen@[chosen@.len() - 1] == picked);
                    } else {
                        assert(exists|a: int|
                            0 <= a < chosen0.len() && ((#[trigger] chosen0[a]).source_index == (
                            pairs@[ww]).source_index || chosen0[a].target_index
                                == pairs@[ww].target_index));
                        let a = choose|a: int|
                            0 <= a < chosen0.len() && ((#[trigger] chosen0[a]).source_index == (
                            pairs@[ww]).source_index || chosen0[a].target_index
                                == pairs@[ww].target_index);
                        assert(chosen@[a] == chosen0[a]);
                    }
                }
            }
            round = round + 1;
        }
    }
    proof {
        if !done {
            lemma_count_true_bounds(used@);
            assert(count_true(used@) == used@.len());
            lemma_count_true_full(used@);
        }
        assert forall|w: int|
            0 <= w < pairs@.len() && (#[trigger] pairs@[w]).score
                > SIMILARITY_THRESHOLD implies (exists|a: int|
            0 <= a < chosen@.len() && ((#[trigger] chosen@[a]).source_index
                == pairs@[w].source_index || chosen@[a].target_index
                == pairs@[w].target_index)) by {
            assert(used@[w]);
        }
    }
    chosen
}

} // verus!
