//! The binary result codec: a 20-byte count header followed by one
//! variable-length record per row, every string length-prefixed, all counts
//! little-endian.  Word-level sub-diffs are left out of the wire form on
//! purpose: callers that need them take the structured result instead.

use vstd::prelude::*;
use vstd::bytes::{spec_u32_to_le_bytes, spec_u32_from_le_bytes, u32_to_le_bytes, u32_from_le_bytes};
use vstd::utf8::{encode_utf8, decode_utf8, valid_utf8};
use crate::types::{DiffResult, AddedRow, RemovedRow, ModifiedRow, UnchangedRow, Difference};

verus! {

use vstd::string::StringSliceAdditionalSpecFns;

/// The low 32 bits of a count, as the wire carries it.
pub open spec fn low32(n: int) -> u32 {
    (n % 0x1_0000_0000) as u32
}

/// A length-prefixed UTF-8 string on the wire.
pub open spec fn enc_str(s: Seq<char>) -> Seq<u8> {
    spec_u32_to_le_bytes(low32(encode_utf8(s).len() as int)) + encode_utf8(s)
}

/// The field pairs of one row, each as two length-prefixed strings.
pub open spec fn enc_pairs(pairs: Seq<(String, String)>) -> Seq<u8>
    decreases pairs.len(),
{
    if pairs.len() == 0 {
        Seq::empty()
    } else {
        enc_pairs(pairs.drop_last()) + enc_str(pairs.last().0@) + enc_str(pairs.last().1@)
    }
}

/// One row block: a field count, then the field pairs.
pub open spec fn enc_row_data(pairs: Seq<(String, String)>) -> Seq<u8> {
    spec_u32_to_le_bytes(low32(pairs.len() as int)) + enc_pairs(pairs)
}

/// The per-column differences of a modified row: three length-prefixed
/// strings each; the word-level spans are deliberately not carried.
pub open spec fn enc_diffs(ds: Seq<Difference>) -> Seq<u8>
    decreases ds.len(),
{
    if ds.len() == 0 {
        Seq::empty()
    } else {
        enc_diffs(ds.drop_last()) + enc_str(ds.last().column@) + enc_str(ds.last().old_value@)
            + enc_str(ds.last().new_value@)
    }
}

/// The added records: tag `1`, the key, the target row.
pub open spec fn enc_added(rows: Seq<AddedRow>) -> Seq<u8>
    decreases rows.len(),
{
    if rows.len() == 0 {
        Seq::empty()
    } else {
        enc_added(rows.drop_last()) + seq![1u8] + enc_str(rows.last().key@) + enc_row_data(
            rows.last().target_row@,
        )
    }
}

/// The removed records: tag `2`, the key, the source row.
pub open spec fn enc_removed(rows: Seq<RemovedRow>) -> Seq<u8>
    decreases rows.len(),
{
    if rows.len() == 0 {
        Seq::empty()
    } else {
        enc_removed(rows.drop_last()) + seq![2u8] + enc_str(rows.last().key@) + enc_row_data(
            rows.last().source_row@,
        )
    }
}

/// The modified records: tag `3`, the key, both rows, then the differences
/// behind their count.
pub open spec fn enc_modified(rows: Seq<ModifiedRow>) -> Seq<u8>
    decreases rows.len(),
{
    if rows.len() == 0 {
        Seq::empty()
    } else {
        enc_modified(rows.drop_last()) + seq![3u8] + enc_str(rows.last().key@) + enc_row_data(
            rows.last().source_row@,
        ) + enc_row_data(rows.last().target_row@) + spec_u32_to_le_bytes(
            low32(rows.last().differences@.len() as int),
        ) + enc_diffs(rows.last().differences@)
    }
}

/// The unchanged records: tag `4`, the key, the shared row.
pub open spec fn enc_unchanged(rows: Seq<UnchangedRow>) -> Seq<u8>
    decreases rows.len(),
{
    if rows.len() == 0 {
        Seq::empty()
    } else {
        enc_unchanged(rows.drop_last()) + seq![4u8] + enc_str(rows.last().key@) + enc_row_data(
            rows.last().row@,
        )
    }
}

/// The 20-byte header: total, added, removed, modified and unchanged counts.
pub open spec fn enc_header(r: DiffResult) -> Seq<u8> {
    spec_u32_to_le_bytes(
        low32((r.added@.len() + r.removed@.len() + r.modified@.len() + r.unchanged@.len()) as int),
    ) + spec_u32_to_le_bytes(low32(r.added@.len() as int)) + spec_u32_to_le_bytes(
        low32(r.removed@.len() as int),
    ) + spec_u32_to_le_bytes(low32(r.modified@.len() as int)) + spec_u32_to_le_bytes(
        low32(r.unchanged@.len() as int),
    )
}

/// The whole wire form of a result.
pub open spec fn encode_spec(r: DiffResult) -> Seq<u8> {
    enc_header(r) + enc_added(r.added@) + enc_removed(r.removed@) + enc_modified(r.modified@)
        + enc_unchanged(r.unchanged@)
}

/// Serializes diff results into the binary wire form.
pub struct BinaryEncoder {
    pub buffer: Vec<u8>,
}

impl BinaryEncoder {
    /// An encoder with an empty buffer.
    pub fn new() -> (r: Self)
        ensures
            r.buffer@.len() == 0,
    {
        BinaryEncoder { buffer: Vec::new() }
    }

    fn write_u8(&mut self, value: u8)
        ensures
            final(self).buffer@ == old(self).buffer@ + seq![value],
    {
        self.buffer.push(value);
        proof {
            assert(self.buffer@ =~= old(self).buffer@ + seq![value]);
        }
    }

    fn write_u32(&mut self, value: u32)
        ensures
            final(self).buffer@ == old(self).buffer@ + spec_u32_to_le_bytes(value),
    {
        let mut bytes = u32_to_le_bytes(value);
        self.buffer.append(&mut bytes);
    }

    fn write_string(&mut self, s: &str)
        ensures
            final(self).buffer@ == old(self).buffer@ + enc_str(s@),
    {
        let bytes = s.as_bytes();
        let n = bytes.len();
        proof {
            assert(bytes@.len() == encode_utf8(s@).len());
        }
        let prefix: u32 = ((n as u64) % 0x1_0000_0000u64) as u32;
        proof {
            assert(prefix == low32(encode_utf8(s@).len() as int));
        }
        self.write_u32(prefix);
        self.buffer.extend_from_slice(bytes);
        proof {
            assert(self.buffer@ =~= old(self).buffer@ + enc_str(s@));
        }
    }

    fn write_row_data(&mut self, row: &Vec<(String, String)>)
        ensures
            final(self).buffer@ == old(self).buffer@ + enc_row_data(row@),
    {
        let n = row.len();
        let prefix: u32 = ((n as u64) % 0x1_0000_0000u64) as u32;
        proof {
            assert(prefix == low32(row@.len() as int));
        }
        self.write_u32(prefix);
        proof {
            assert(self.buffer@ =~= old(self).buffer@ + spec_u32_to_le_bytes(
                low32(row@.len() as int),
            ) + enc_pairs(row@.take(0)));
        }
        let mut i: usize = 0;
        while i < row.len()
            invariant
                i <= row@.len(),
                self.buffer@ == old(self).buffer@ + spec_u32_to_le_bytes(
                    low32(row@.len() as int),
                ) + enc_pairs(row@.take(i as int)),
            decreases row@.len() - i,
        {
            self.write_string(row[i].0.as_str());
            self.write_string(row[i].1.as_str());
            proof {
                assert(row@.take(i as int + 1).drop_last() =~= row@.take(i as int));
                assert(row@.take(i as int + 1).last() == row@[i as int]);
                assert(self.buffer@ =~= old(self).buffer@ + spec_u32_to_le_bytes(
                    low32(row@.len() as int),
                ) + enc_pairs(row@.take(i as int + 1)));
            }
            i = i + 1;
        }
        proof {
            assert(row@.take(row@.len() as int) =~= row@);
            assert(self.buffer@ =~= old(self).buffer@ + enc_row_data(row@));
        }
    }

    /// Appends the full wire form of a result to the buffer.
    #[verifier::rlimit(60)]
    pub fn encode_diff_result(&mut self, result: &DiffResult)
        ensures
            final(self).buffer@ == old(self).buffer@ + encode_spec(*result),
    {
        let na = result.added.len();
        let nr = result.removed.len();
        let nm = result.modified.len();
        let nu = result.unchanged.len();
        let total: u128 = na as u128 + nr as u128 + nm as u128 + nu as u128;
        let t32: u32 = (total % 0x1_0000_0000u128) as u32;
        proof {
            assert(t32 == low32(
                (result.added@.len() + result.removed@.len() + result.modified@.len()
                    + result.unchanged@.len()) as int,
            ));
        }
        self.write_u32(t32);
        self.write_u32(((na as u64) % 0x1_0000_0000u64) as u32);
        self.write_u32(((nr as u64) % 0x1_0000_0000u64) as u32);
        self.write_u32(((nm as u64) % 0x1_0000_0000u64) as u32);
        self.write_u32(((nu as u64) % 0x1_0000_0000u64) as u32);
        let ghost base = self.buffer@;
        proof {
            assert(base =~= old(self).buffer@ + enc_header(*result));
            assert(base + enc_added(result.added@.take(0)) =~= base);
        }
        let mut i: usize = 0;
        while i < result.added.len()
            invariant
                i <= result.added@.len(),
                self.buffer@ == base + enc_added(result.added@.take(i as int)),
            decreases result.added@.len() - i,
        {
            self.write_u8(1);
            self.write_string(result.added[i].key.as_str());
            self.write_row_data(&result.added[i].target_row);
            proof {
                assert(result.added@.take(i as int + 1).drop_last() =~= result.added@.take(
                    i as int,
                ));
                assert(result.added@.take(i as int + 1).last() == result.added@[i as int]);
                assert(self.buffer@ =~= base + enc_added(result.added@.take(i as int + 1)));
            }
            i = i + 1;
        }
        proof {
            assert(result.added@.take(result.added@.len() as int) =~= result.added@);
        }
        let ghost base2 = self.buffer@;
        proof {
            assert(base2 + enc_removed(result.removed@.take(0)) =~= base2);
        }
        let mut i: usize = 0;
        while i < result.removed.len()
            invariant
                i <= result.removed@.len(),
                self.buffer@ == base2 + enc_removed(result.removed@.take(i as int)),
            decreases result.removed@.len() - i,
        {
            self.write_u8(2);
            self.write_string(result.removed[i].key.as_str());
            self.write_row_data(&result.removed[i].source_row);
            proof {
                assert(result.removed@.take(i as int + 1).drop_last() =~= result.removed@.take(
                    i as int,
                ));
                assert(result.removed@.take(i as int + 1).last() == result.removed@[i as int]);
                assert(self.buffer@ =~= base2 + enc_removed(result.removed@.take(i as int + 1)));
            }
            i = i + 1;
        }
        proof {
            assert(result.removed@.take(result.removed@.len() as int) =~= result.removed@);
        }
        let ghost base3 = self.buffer@;
        proof {
            assert(base3 + enc_modified(result.modified@.take(0)) =~= base3);
        }
        let mut i: usize = 0;
        while i < result.modified.len()
            invariant
                i <= result.modified@.len(),
                self.buffer@ == base3 + enc_modified(result.modified@.take(i as int)),
            decreases result.modified@.len() - i,
        {
            self.write_u8(3);
            self.write_string(result.modified[i].key.as_str());
            self.write_row_data(&result.modified[i].source_row);
            self.write_row_data(&result.modified[i].target_row);
            let nd = result.modified[i].differences.len();
            self.write_u32(((nd as u64) % 0x1_0000_0000u64) as u32);
            let ghost base_d = self.buffer@;
            proof {
                assert(base_d + enc_diffs(result.modified@[i as int].differences@.take(0))
                    =~= base_d);
            }
            let mut k: usize = 0;
            while k < result.modified[i].differences.len()
                invariant
                    i < result.modified@.len(),
                    k <= result.modified@[i as int].differences@.len(),
                    self.buffer@ == base_d + enc_diffs(
                        result.modified@[i as int].differences@.take(k as int),
                    ),
                decreases result.modified@[i as int].differences@.len() - k,
            {
                let d = &result.modified[i].differences[k];
                self.write_string(d.column.as_str());
                self.write_string(d.old_value.as_str());
                self.write_string(d.new_value.as_str());
                proof {
                    let ds = result.modified@[i as int].differences@;
                    assert(ds.take(k as int + 1).drop_last() =~= ds.take(k as int));
                    assert(ds.take(k as int + 1).last() == ds[k as int]);
                    assert(self.buffer@ =~= base_d + enc_diffs(ds.take(k as int + 1)));
                }
                k = k + 1;
            }
            proof {
                let ds = result.modified@[i as int].differences@;
                assert(ds.take(ds.len() as int) =~= ds);
                assert(result.modified@.take(i as int + 1).drop_last() =~= result.modified@.take(
                    i as int,
                ));
                assert(result.modified@.take(i as int + 1).last() == result.modified@[i as int]);
                assert(self.buffer@ =~= base3 + enc_modified(result.modified@.take(i as int + 1)));
            }
            i = i + 1;
        }
        proof {
            assert(result.modified@.take(result.modified@.len() as int) =~= result.modified@);
        }
        let ghost base4 = self.buffer@;
        proof {
            assert(base4 + enc_unchanged(result.unchanged@.take(0)) =~= base4);
        }
        let mut i: usize = 0;
        while i < result.unchanged.len()
            invariant
                i <= result.unchanged@.len(),
                self.buffer@ == base4 + enc_unchanged(result.unchanged@.take(i as int)),
            decreases result.unchanged@.len() - i,
        {
            self.write_u8(4);
            self.write_string(result.unchanged[i].key.as_str());
            self.write_row_data(&result.unchanged[i].row);
            proof {
                assert(result.unchanged@.take(i as int + 1).drop_last() =~= result.unchanged@.take(
                    i as int,
                ));
                assert(result.unchanged@.take(i as int + 1).last() == result.unchanged@[i as int]);
                assert(self.buffer@ =~= base4 + enc_unchanged(
                    result.unchanged@.take(i as int + 1),
                ));
            }
            i = i + 1;
        }
        proof {
            assert(result.unchanged@.take(result.unchanged@.len() as int) =~= result.unchanged@);
            assert(self.buffer@ =~= old(self).buffer@ + encode_spec(*result));
        }
    }

    /// Hands the buffer out.
    pub fn into_vec(self) -> (r: Vec<u8>)
        ensures
            r@ == self.buffer@,
    {
        self.buffer
    }

    /// Borrows the buffer.
    pub fn as_slice(&self) -> (r: &[u8])
        ensures
            r@ == self.buffer@,
    {
        self.buffer.as_slice()
    }
}

/// Relies on `String::from_utf8_lossy`: decoding valid UTF-8 returns exactly
/// the encoded text.
#[verifier::external_body]
fn utf8_lossy(bytes: &Vec<u8>) -> (r: String)
    ensures
        valid_utf8(bytes@) ==> r@ == decode_utf8(bytes@),
{
    String::from_utf8_lossy(bytes.as_slice()).into_owned()
}

/// Where the length-prefixed string starting at `pos` ends, or `-1` when
/// the prefix or its bytes would overrun the buffer.
pub open spec fn str_end(b: Seq<u8>, pos: int) -> int {
    if 0 <= pos && pos + 4 <= b.len() {
        let n = spec_u32_from_le_bytes(b.subrange(pos, pos + 4)) as int;
        if pos + 4 + n <= b.len() {
            pos + 4 + n
        } else {
            -1
        }
    } else {
        -1
    }
}

/// Where `k` length-prefixed string pairs starting at `pos` end, or `-1`
/// when any of them would overrun the buffer.
pub open spec fn pairs_end(b: Seq<u8>, pos: int, k: nat) -> int
    decreases k,
{
    if k == 0 {
        pos
    } else {
        let p1 = str_end(b, pos);
        if p1 < 0 {
            -1
        } else {
            let p2 = str_end(b, p1);
            if p2 < 0 {
                -1
            } else {
                pairs_end(b, p2, (k - 1) as nat)
            }
        }
    }
}

/// A non-overrunning pair walk stays inside the buffer.
pub proof fn lemma_pairs_end_bounds(b: Seq<u8>, pos: int, k: nat)
    requires
        0 <= pos <= b.len(),
        pairs_end(b, pos, k) >= 0,
    ensures
        pos <= pairs_end(b, pos, k) <= b.len(),
    decreases k,
{
    if k > 0 {
        let p1 = str_end(b, pos);
        let p2 = str_end(b, p1);
        lemma_pairs_end_bounds(b, p2, (k - 1) as nat);
    }
}

/// The pair walk composes: walking `k1 + k2` pairs is walking `k1`, then
/// `k2` from where that ended.
pub proof fn lemma_pairs_end_split(b: Seq<u8>, pos: int, k1: nat, k2: nat)
    requires
        0 <= pos,
    ensures
        pairs_end(b, pos, k1 + k2) == (if pairs_end(b, pos, k1) < 0 {
            -1int
        } else {
            pairs_end(b, pairs_end(b, pos, k1), k2)
        }),
    decreases k1,
{
    if k1 > 0 {
        let p1 = str_end(b, pos);
        if p1 >= 0 {
            let p2 = str_end(b, p1);
            if p2 >= 0 {
                lemma_pairs_end_split(b, p2, (k1 - 1) as nat, k2);
            }
        }
    }
}

/// Reads the binary wire form back, refusing any read past the buffer end.
pub struct BinaryDecoder<'a> {
    pub buffer: &'a [u8],
    pub position: usize,
}

impl<'a> BinaryDecoder<'a> {
    /// The cursor never passes the end.
    pub open spec fn wf(&self) -> bool {
        self.position <= self.buffer@.len()
    }

    /// A decoder at the start of a buffer.
    pub fn new(buffer: &'a [u8]) -> (r: Self)
        ensures
            r.wf(),
            r.buffer@ == buffer@,
            r.position == 0,
    {
        BinaryDecoder { buffer, position: 0 }
    }

    /// Reads one byte, or refuses at the end.
    pub fn read_u8(&mut self) -> (r: Option<u8>)
        requires
            old(self).wf(),
        ensures
            final(self).wf(),
            final(self).buffer@ == old(self).buffer@,
            r is Some <==> old(self).position + 1 <= old(self).buffer@.len(),
            r is Some ==> (r->0) == old(self).buffer@[old(self).position as int]
                && final(self).position == old(self).position + 1,
            r is None ==> final(self).position == old(self).position,
    {
        if self.buffer.len() - self.position >= 1 {
            let v = self.buffer[self.position];
            self.position = self.position + 1;
            Some(v)
        } else {
            None
        }
    }

    /// Reads a little-endian count, or refuses when fewer than four bytes
    /// remain.
    pub fn read_u32(&mut self) -> (r: Option<u32>)
        requires
            old(self).wf(),
        ensures
            final(self).wf(),
            final(self).buffer@ == old(self).buffer@,
            r is Some <==> old(self).position + 4 <= old(self).buffer@.len(),
            r is Some ==> (r->0) == spec_u32_from_le_bytes(
                old(self).buffer@.subrange(
                    old(self).position as int,
                    old(self).position as int + 4,
                ),
            ) && final(self).position == old(self).position + 4,
            r is None ==> final(self).position == old(self).position,
    {
        if self.buffer.len() - self.position >= 4 {
            let mut bytes: Vec<u8> = Vec::new();
            bytes.push(self.buffer[self.position]);
            bytes.push(self.buffer[self.position + 1]);
            bytes.push(self.buffer[self.position + 2]);
            bytes.push(self.buffer[self.position + 3]);
            proof {
                assert(bytes@ =~= self.buffer@.subrange(
                    self.position as int,
                    self.position as int + 4,
                ));
            }
            let v = u32_from_le_bytes(bytes.as_slice());
            self.position = self.position + 4;
            Some(v)
        } else {
            None
        }
    }

    /// Reads a length-prefixed string; it succeeds exactly when the prefix
    /// and its bytes fit in the buffer, and refuses without moving
    /// otherwise.  Valid UTF-8 comes back exactly.
    pub fn read_string(&mut self) -> (r: Option<String>)
        requires
            old(self).wf(),
        ensures
            final(self).wf(),
            final(self).buffer@ == old(self).buffer@,
            r is Some <==> str_end(old(self).buffer@, old(self).position as int) >= 0,
            r is Some ==> ({
                let fin = str_end(old(self).buffer@, old(self).position as int);
                let bytes = old(self).buffer@.subrange(old(self).position + 4, fin);
                &&& final(self).position == fin
                &&& (valid_utf8(bytes) ==> (r->0)@ == decode_utf8(bytes))
            }),
            r is None ==> final(self).position == old(self).position,
    {
        if self.buffer.len() - self.position < 4 {
            return None;
        }
        let mut bytes: Vec<u8> = Vec::new();
        bytes.push(self.buffer[self.position]);
        bytes.push(self.buffer[self.position + 1]);
        bytes.push(self.buffer[self.position + 2]);
        bytes.push(self.buffer[self.position + 3]);
        proof {
            assert(bytes@ =~= self.buffer@.subrange(
                self.position as int,
                self.position as int + 4,
            ));
        }
        let n32 = u32_from_le_bytes(bytes.as_slice());
        let n = n32 as usize;
        if self.buffer.len() - self.position - 4 < n {
            return None;
        }
        let start = self.position + 4;
        let blen = self.buffer.len();
        let mut content: Vec<u8> = Vec::new();
        let mut k: usize = 0;
        while k < n
            invariant
                k <= n,
                blen == self.buffer@.len(),
                start + n <= blen,
                content@ == self.buffer@.subrange(start as int, start as int + k as int),
            decreases n - k,
        {
            content.push(self.buffer[start + k]);
            proof {
                assert(content@ =~= self.buffer@.subrange(
                    start as int,
                    start as int + k as int + 1,
                ));
            }
            k = k + 1;
        }
        let s = utf8_lossy(&content);
        self.position = start + n;
        Some(s)
    }

    /// Reads one row block: a field count and that many string pairs.  It
    /// succeeds exactly when the count and every pair fit in the buffer,
    /// hands back each pair's decoded strings, and refuses without moving
    /// otherwise.
    pub fn read_row_data(&mut self) -> (r: Option<Vec<(String, String)>>)
        requires
            old(self).wf(),
        ensures
            final(self).wf(),
            final(self).buffer@ == old(self).buffer@,
            ({
                let b = old(self).buffer@;
                let p0 = old(self).position as int;
                let count = spec_u32_from_le_bytes(b.subrange(p0, p0 + 4)) as nat;
                &&& (r is Some <==> p0 + 4 <= b.len() && pairs_end(b, p0 + 4, count) >= 0)
                &&& r is Some ==> final(self).position == pairs_end(b, p0 + 4, count)
                    && (r->0)@.len() == count && (forall|k: int|
                    0 <= k < count ==> {
                        let p = pairs_end(b, p0 + 4, k as nat);
                        let q = str_end(b, p);
                        &&& (valid_utf8(b.subrange(p + 4, q)) ==> (#[trigger] (r->0)@[k]).0@
                            == decode_utf8(b.subrange(p + 4, q)))
                        &&& (valid_utf8(b.subrange(q + 4, str_end(b, q))) ==> (r->0)@[k].1@
                            == decode_utf8(b.subrange(q + 4, str_end(b, q))))
                    })
                &&& r is None ==> final(self).position == old(self).position
            }),
    {
        let ghost b = self.buffer@;
        let pos0 = self.position;
        let count32 = match self.read_u32() {
            Some(v) => v,
            None => {
                return None;
            },
        };
        let count = count32 as usize;
        let ghost start = pos0 as int + 4;
        let mut row: Vec<(String, String)> = Vec::new();
        let mut k: usize = 0;
        while k < count
            invariant
                k <= count,
                row@.len() == k,
                self.wf(),
                self.buffer@ == b,
                b == old(self).buffer@,
                pos0 == old(self).position,
                pos0 as int + 4 <= b.len(),
                start == pos0 as int + 4,
                count == spec_u32_from_le_bytes(b.subrange(pos0 as int, pos0 as int + 4)) as nat,
                self.position as int == pairs_end(b, start, k as nat),
                self.position as int >= 0,
                forall|w: int|
                    0 <= w < k ==> {
                        let p = pairs_end(b, start, w as nat);
                        let q = str_end(b, p);
                        &&& (valid_utf8(b.subrange(p + 4, q)) ==> (#[trigger] row@[w]).0@
                            == decode_utf8(b.subrange(p + 4, q)))
                        &&& (valid_utf8(b.subrange(q + 4, str_end(b, q))) ==> row@[w].1@
                            == decode_utf8(b.subrange(q + 4, str_end(b, q))))
                    },
            decreases count - k,
        {
            let ghost p = self.position as int;
            let key = match self.read_string() {
                Some(s) => s,
                None => {
                    proof {
                        lemma_pairs_end_split(b, start, k as nat, (count - k) as nat);
                        assert(str_end(b, p) < 0);
                        assert(count - k > 0);
                        assert(pairs_end(b, p, (count - k) as nat) == -1);
                        assert(k as nat + (count - k) as nat == count as nat);
                        assert(pairs_end(b, start, count as nat) == -1);
                    }
                    self.position = pos0;
                    return None;
                },
            };
            let ghost q = self.position as int;
            proof {
                assert(q == str_end(b, p));
            }
            let value = match self.read_string() {
                Some(s) => s,
                None => {
                    proof {
                        lemma_pairs_end_split(b, start, k as nat, (count - k) as nat);
                        assert(str_end(b, q) < 0);
                        assert(count - k > 0);
                        assert(pairs_end(b, p, (count - k) as nat) == -1);
                        assert(k as nat + (count - k) as nat == count as nat);
                        assert(pairs_end(b, start, count as nat) == -1);
                    }
                    self.position = pos0;
                    return None;
                },
            };
            proof {
                assert(self.position as int == str_end(b, q));
                lemma_pairs_end_split(b, start, k as nat, 1);
                assert(pairs_end(b, str_end(b, q), 0) == str_end(b, q));
                assert(pairs_end(b, p, 1) == str_end(b, q));
                assert(pairs_end(b, start, k as nat + 1) == self.position as int);
            }
            row.push((key, value));
            k = k + 1;
        }
        proof {
            lemma_pairs_end_bounds(b, start, count as nat);
        }
        Some(row)
    }

    /// Reads the five header counts: total, added, removed, modified,
    /// unchanged.  Refuses a buffer of fewer than twenty bytes, leaving the
    /// cursor in place.
    pub fn decode_header(&mut self) -> (r: Option<(u32, u32, u32, u32, u32)>)
        requires
            old(self).wf(),
        ensures
            final(self).wf(),
            final(self).buffer@ == old(self).buffer@,
            r is Some <==> old(self).position + 20 <= old(self).buffer@.len(),
            r is Some ==> ({
                let p = old(self).position as int;
                let b = old(self).buffer@;
                &&& final(self).position == old(self).position + 20
                &&& (r->0).0 == spec_u32_from_le_bytes(b.subrange(p, p + 4))
                &&& (r->0).1 == spec_u32_from_le_bytes(b.subrange(p + 4, p + 8))
                &&& (r->0).2 == spec_u32_from_le_bytes(b.subrange(p + 8, p + 12))
                &&& (r->0).3 == spec_u32_from_le_bytes(b.subrange(p + 12, p + 16))
                &&& (r->0).4 == spec_u32_from_le_bytes(b.subrange(p + 16, p + 20))
            }),
            r is None ==> final(self).position == old(self).position,
    {
        if self.buffer.len() - self.position < 20 {
            return None;
        }
        let t = match self.read_u32() {
            Some(v) => v,
            None => {
                return None;
            },
        };
        let a = match self.read_u32() {
            Some(v) => v,
            None => {
                return None;
            },
        };
        let rm = match self.read_u32() {
            Some(v) => v,
            None => {
                return None;
            },
        };
        let m = match self.read_u32() {
            Some(v) => v,
            None => {
                return None;
            },
        };
        let u = match self.read_u32() {
            Some(v) => v,
            None => {
                return None;
            },
        };
        Some((t, a, rm, m, u))
    }
}

} // verus!
