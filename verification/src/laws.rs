//! The engine's general laws, proved once over the session model: the
//! partition of every row, idempotence of self-diffing, additivity of
//! chunked classification, and the binary header round trip.

use vstd::prelude::*;
use vstd::bytes::{spec_u32_to_le_bytes, spec_u32_from_le_bytes, lemma_auto_spec_u32_to_from_le_bytes};
use crate::engine::{CsvDifferInternal, RowClass, rkey, diff_cols};
use crate::types::DiffResult;
use crate::binary::{encode_spec, enc_header, enc_added, enc_removed, enc_modified, enc_unchanged, low32};

verus! {

/// Every target row of a primary-key session falls in exactly one of added,
/// modified and unchanged: over any range the three counts fill it.
pub proof fn lemma_pk_target_partition(d: CsvDifferInternal, s: int, e: int)
    requires
        s <= e,
    ensures
        d.count_class(RowClass::Added, s, e) + d.count_class(RowClass::Modified, s, e)
            + d.count_class(RowClass::Unchanged, s, e) == e - s,
    decreases e - s,
{
    if e > s {
        lemma_pk_target_partition(d, s, e - 1);
        let c = d.class_of(e - 1);
        assert(c is Added || c is Modified || c is Unchanged);
    }
}

/// Every source row of a primary-key session is either removed or keyed into
/// the target set: the removed count plus the matched count fills the range.
pub open spec fn count_src_matched(d: CsvDifferInternal, s: int, e: int) -> int
    decreases e - s,
{
    if e <= s {
        0
    } else {
        count_src_matched(d, s, e - 1) + (if d.removed_of(e - 1) {
            0int
        } else {
            1int
        })
    }
}

/// The source-side partition: removed rows and key-matched rows together
/// cover the range exactly once.
pub proof fn lemma_pk_source_partition(d: CsvDifferInternal, s: int, e: int)
    requires
        s <= e,
    ensures
        d.count_removed(s, e) + count_src_matched(d, s, e) == e - s,
    decreases e - s,
{
    if e > s {
        lemma_pk_source_partition(d, s, e - 1);
    }
}

/// Two different target rows never claim the same source partner: the key
/// maps are injective, so a matched source row is matched exactly once.
pub proof fn lemma_pk_partner_injective(d: CsvDifferInternal, j1: int, j2: int)
    requires
        d.wf(),
        d.is_pk(),
        0 <= j1 < d.n_t(),
        0 <= j2 < d.n_t(),
        j1 != j2,
        d.source_map->0@.contains_key(d.tkey(j1)),
        d.source_map->0@.contains_key(d.tkey(j2)),
    ensures
        d.partner(j1) != d.partner(j2),
{
    let skm = d.source_map->0@;
    let k1 = d.tkey(j1);
    let k2 = d.tkey(j2);
    assert(k1 != k2) by {
        let tkm = d.target_map->0@;
        assert(tkm.contains_key(d.tkey(j1)) && tkm[d.tkey(j1)] == j1);
        assert(tkm.contains_key(d.tkey(j2)) && tkm[d.tkey(j2)] == j2);
    }
    if d.partner(j1) == d.partner(j2) {
        let i = skm[k1] as int;
        assert(rkey(d.source.rows.deep_view(), d.source.header_map@, d.key_columns.deep_view(),
            d.case_sensitive, d.ignore_whitespace, d.ignore_empty_vs_null, i) == k1);
        assert(rkey(d.source.rows.deep_view(), d.source.header_map@, d.key_columns.deep_view(),
            d.case_sensitive, d.ignore_whitespace, d.ignore_empty_vs_null, i) == k2);
        assert(false);
    }
}

/// The differing-column list of a row against itself under one header map is
/// empty.
proof fn lemma_diff_cols_self(row: Seq<Seq<char>>, headers: Seq<Seq<char>>, hmap: Map<
    Seq<char>,
    usize,
>, excluded: Seq<Seq<char>>, cs: bool, iw: bool, ien: bool)
    ensures
        diff_cols(row, row, headers, hmap, hmap, excluded, cs, iw, ien).len() == 0,
    decreases headers.len(),
{
    if headers.len() > 0 {
        lemma_diff_cols_self(row, headers.drop_last(), hmap, excluded, cs, iw, ien);
    }
}

/// Diffing a dataset against itself in primary-key mode classifies every row
/// unchanged: no additions, no removals, no modifications.
pub proof fn lemma_pk_idempotent(d: CsvDifferInternal)
    requires
        d.wf(),
        d.is_pk(),
        d.source.rows.deep_view() == d.target.rows.deep_view(),
        d.source.headers.deep_view() == d.target.headers.deep_view(),
        d.source.header_map@ == d.target.header_map@,
    ensures
        forall|j: int| 0 <= j < d.n_t() ==> #[trigger] d.class_of(j) == RowClass::Unchanged,
        d.count_class(RowClass::Added, 0, d.n_t()) == 0,
        d.count_class(RowClass::Modified, 0, d.n_t()) == 0,
        d.count_class(RowClass::Unchanged, 0, d.n_t()) == d.n_t(),
        d.count_removed(0, d.n_s()) == 0,
{
    assert forall|j: int| 0 <= j < d.n_t() implies #[trigger] d.class_of(j)
        == RowClass::Unchanged by {
        let skm = d.source_map->0@;
        assert(d.tkey(j) == d.skey(j));
        assert(skm.contains_key(d.skey(j)) && skm[d.skey(j)] == j);
        lemma_diff_cols_self(d.target.rows.deep_view()[j], d.source.headers.deep_view(),
            d.source.header_map@, d.excluded_columns.deep_view(), d.case_sensitive,
            d.ignore_whitespace, d.ignore_empty_vs_null);
    }
    assert forall|i: int| 0 <= i < d.n_s() implies !(#[trigger] d.removed_of(i)) by {
        let tkm = d.target_map->0@;
        assert(d.skey(i) == d.tkey(i));
        assert(tkm.contains_key(d.tkey(i)));
    }
    lemma_count_class_all(d, RowClass::Unchanged, 0, d.n_t());
    lemma_count_removed_none(d, 0, d.n_s());
}

/// When every row in the range falls in one class, that class counts the
/// whole range and the others count nothing.
proof fn lemma_count_class_all(d: CsvDifferInternal, c: RowClass, s: int, e: int)
    requires
        s <= e,
        forall|j: int| s <= j < e ==> #[trigger] d.class_of(j) == c,
    ensures
        d.count_class(c, s, e) == e - s,
        forall|c2: RowClass| c2 != c ==> #[trigger] d.count_class(c2, s, e) == 0,
    decreases e - s,
{
    if e > s {
        lemma_count_class_all(d, c, s, e - 1);
        assert forall|c2: RowClass| c2 != c implies #[trigger] d.count_class(c2, s, e) == 0 by {
            assert(d.count_class(c2, s, e) == d.count_class(c2, s, e - 1) + (if d.class_of(e - 1)
                == c2 {
                1int
            } else {
                0int
            }));
            assert(d.class_of(e - 1) == c);
        }
    }
}

/// With no row removed, the removed count is zero.
proof fn lemma_count_removed_none(d: CsvDifferInternal, s: int, e: int)
    requires
        s <= e,
        forall|i: int| s <= i < e ==> !(#[trigger] d.removed_of(i)),
    ensures
        d.count_removed(s, e) == 0,
    decreases e - s,
{
    if e > s {
        lemma_count_removed_none(d, s, e - 1);
    }
}

/// Within one class, the rank `count_class(c, s, j)` pins the row: two
/// different rows of the same class never share it, so the `k`-th bucket
/// entry of a chunk witnesses exactly one row, and every row of the class is
/// witnessed by exactly one entry.
pub proof fn lemma_rank_unique(d: CsvDifferInternal, c: RowClass, s: int, j1: int, j2: int)
    requires
        s <= j1 < j2,
        d.class_of(j1) == c,
        d.class_of(j2) == c,
    ensures
        d.count_class(c, s, j1) < d.count_class(c, s, j2),
{
    lemma_count_class_monotone(d, c, s, j1 + 1, j2);
    assert(d.count_class(c, s, j1 + 1) == d.count_class(c, s, j1) + 1);
}

/// Counts never shrink as the range grows.
proof fn lemma_count_class_monotone(d: CsvDifferInternal, c: RowClass, s: int, e1: int, e2: int)
    requires
        s <= e1 <= e2,
    ensures
        d.count_class(c, s, e1) <= d.count_class(c, s, e2),
    decreases e2 - e1,
{
    if e2 > e1 {
        lemma_count_class_monotone(d, c, s, e1, e2 - 1);
    }
}

/// Classification counts are additive over adjacent ranges: one full-range
/// chunk counts exactly what consecutive non-overlapping chunks count
/// together, so chunked primary-key runs reproduce the one-shot buckets.
pub proof fn lemma_chunk_equivalence(d: CsvDifferInternal, c: RowClass, s: int, m: int, e: int)
    requires
        s <= m <= e,
    ensures
        d.count_class(c, s, e) == d.count_class(c, s, m) + d.count_class(c, m, e),
    decreases e - m,
{
    if e > m {
        lemma_chunk_equivalence(d, c, s, m, e - 1);
    } else {
        lemma_count_class_empty(d, c, s);
    }
}

proof fn lemma_count_class_empty(d: CsvDifferInternal, c: RowClass, s: int)
    ensures
        d.count_class(c, s, s) == 0,
{
}

/// Encoding writes the five counts into the first twenty bytes, and a result
/// with empty buckets encodes to exactly the twenty-byte header, so decoding
/// the header of an encoded result reproduces the encoder's counts.
pub proof fn lemma_binary_header_round_trip(r: DiffResult)
    ensures
        encode_spec(r).len() >= 20,
        spec_u32_from_le_bytes(encode_spec(r).subrange(0, 4)) == low32(
            (r.added@.len() + r.removed@.len() + r.modified@.len() + r.unchanged@.len()) as int,
        ),
        spec_u32_from_le_bytes(encode_spec(r).subrange(4, 8)) == low32(r.added@.len() as int),
        spec_u32_from_le_bytes(encode_spec(r).subrange(8, 12)) == low32(r.removed@.len() as int),
        spec_u32_from_le_bytes(encode_spec(r).subrange(12, 16)) == low32(
            r.modified@.len() as int,
        ),
        spec_u32_from_le_bytes(encode_spec(r).subrange(16, 20)) == low32(
            r.unchanged@.len() as int,
        ),
        (r.added@.len() == 0 && r.removed@.len() == 0 && r.modified@.len() == 0
            && r.unchanged@.len() == 0) ==> encode_spec(r).len() == 20,
{
    lemma_auto_spec_u32_to_from_le_bytes();
    let h = enc_header(r);
    assert(h.len() == 20);
    assert(encode_spec(r).subrange(0, 4) =~= spec_u32_to_le_bytes(
        low32(
            (r.added@.len() + r.removed@.len() + r.modified@.len() + r.unchanged@.len()) as int,
        ),
    ));
    assert(encode_spec(r).subrange(4, 8) =~= spec_u32_to_le_bytes(low32(r.added@.len() as int)));
    assert(encode_spec(r).subrange(8, 12) =~= spec_u32_to_le_bytes(
        low32(r.removed@.len() as int),
    ));
    assert(encode_spec(r).subrange(12, 16) =~= spec_u32_to_le_bytes(
        low32(r.modified@.len() as int),
    ));
    assert(encode_spec(r).subrange(16, 20) =~= spec_u32_to_le_bytes(
        low32(r.unchanged@.len() as int),
    ));
    if r.added@.len() == 0 && r.removed@.len() == 0 && r.modified@.len() == 0 && r.unchanged@.len()
        == 0 {
        assert(enc_added(r.added@).len() == 0);
        assert(enc_removed(r.removed@).len() == 0);
        assert(enc_modified(r.modified@).len() == 0);
        assert(enc_unchanged(r.unchanged@).len() == 0);
    }
}

} // verus!
