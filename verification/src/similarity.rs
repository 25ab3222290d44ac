//! The similarity scorer: an exact, integer-valued edit-distance policy on a
//! per-mille scale.  Short values get a prefix-rewarding variant, long values
//! plain normalized edit distance; a row's score is the average over the
//! shared, non-excluded columns of the normalized cells.

use vstd::prelude::*;
use crate::text::chars_of;
use crate::utils::{norm_spec, col_value, seq_has, normalize_value_cow, contains_str};

verus! {

/// The least of three values.
pub open spec fn min3(a: int, b: int, c: int) -> int {
    if a <= b && a <= c {
        a
    } else if b <= c {
        b
    } else {
        c
    }
}

/// The edit distance between two values: the least number of character
/// insertions, deletions and substitutions that turns one into the other.
pub open spec fn lev(s: Seq<char>, t: Seq<char>) -> nat
    decreases s.len() + t.len(),
{
    if s.len() == 0 {
        t.len()
    } else if t.len() == 0 {
        s.len()
    } else {
        let c: nat = if s.last() == t.last() {
            0
        } else {
            1
        };
        min3(
            (lev(s.drop_last(), t) + 1) as int,
            (lev(s, t.drop_last()) + 1) as int,
            (lev(s.drop_last(), t.drop_last()) + c) as int,
        ) as nat
    }
}

/// The edit distance never exceeds the longer value's length.
pub proof fn lemma_lev_le_max(s: Seq<char>, t: Seq<char>)
    ensures
        lev(s, t) <= s.len() || lev(s, t) <= t.len(),
        lev(s, t) <= s.len() + t.len(),
    decreases s.len() + t.len(),
{
    if s.len() == 0 || t.len() == 0 {
    } else {
        lemma_lev_le_max(s.drop_last(), t);
        lemma_lev_le_max(s, t.drop_last());
        lemma_lev_le_max(s.drop_last(), t.drop_last());
    }
}

/// The edit distance is zero exactly between equal values.
pub proof fn lemma_lev_zero_iff_eq(s: Seq<char>, t: Seq<char>)
    ensures
        lev(s, t) == 0 <==> s == t,
    decreases s.len() + t.len(),
{
    if s.len() == 0 {
        if t.len() == 0 {
            assert(s =~= t);
        }
    } else if t.len() == 0 {
    } else {
        lemma_lev_zero_iff_eq(s.drop_last(), t.drop_last());
        if s == t {
            assert(s.drop_last() =~= t.drop_last());
            assert(lev(s.drop_last(), t.drop_last()) == 0);
            assert(lev(s, t) == 0);
        }
        if lev(s, t) == 0 {
            assert(s.last() == t.last());
            assert(lev(s.drop_last(), t.drop_last()) == 0);
            assert(s.drop_last() =~= t.drop_last());
            assert(s =~= s.drop_last().push(s.last()));
            assert(t =~= t.drop_last().push(t.last()));
        }
    }
}

/// Computes the edit distance between two character sequences.
pub fn levenshtein(a: &Vec<char>, b: &Vec<char>) -> (r: usize)
    ensures
        r == lev(a@, b@),
{
    let m = a.len();
    let n = b.len();
    if m == 0 {
        return n;
    }
    if n == 0 {
        return m;
    }
    // row holds, for the source prefix of length i, the distances to the
    // target prefixes of lengths 1..=n; the length-0 column is tracked as a
    // scalar since it is just i.
    let mut row: Vec<usize> = Vec::new();
    let mut k: usize = 0;
    while k < n
        invariant
            k <= n,
            n == b@.len(),
            row@.len() == k,
            forall|j: int| 0 <= j < k ==> row@[j] == j + 1,
        decreases n - k,
    {
        row.push(k + 1);
        k = k + 1;
    }
    proof {
        assert forall|j: int| 1 <= j <= n implies lev(a@.take(0), b@.take(j)) == j by {
            assert(a@.take(0).len() == 0);
            assert(b@.take(j).len() == j);
        }
    }
    let mut i0: usize = 0;
    while i0 < m
        invariant
            0 <= i0 <= m,
            m == a@.len(),
            n == b@.len(),
            m >= 1,
            n >= 1,
            row@.len() == n,
            forall|jj: int| 0 <= jj < n ==> row@[jj] == lev(a@.take(i0 as int), b@.take(jj + 1)),
        decreases m - i0,
    {
        let mut diag: usize = i0;
        let mut left: usize = i0 + 1;
        proof {
            assert(a@.take(i0 as int).len() == i0);
            assert(b@.take(0).len() == 0);
            assert(lev(a@.take(i0 as int), b@.take(0)) == i0);
            assert(a@.take(i0 as int + 1).len() == i0 + 1);
            assert(lev(a@.take(i0 as int + 1), b@.take(0)) == i0 + 1);
        }
        let mut j0: usize = 0;
        while j0 < n
            invariant
                0 <= i0 < m,
                0 <= j0 <= n,
                m == a@.len(),
                n == b@.len(),
                row@.len() == n,
                diag == lev(a@.take(i0 as int), b@.take(j0 as int)),
                left == lev(a@.take(i0 as int + 1), b@.take(j0 as int)),
                forall|jj: int|
                    j0 <= jj < n ==> row@[jj] == lev(a@.take(i0 as int), b@.take(jj + 1)),
                forall|jj: int|
                    0 <= jj < j0 ==> row@[jj] == lev(a@.take(i0 as int + 1), b@.take(jj + 1)),
            decreases n - j0,
        {
            let up = row[j0];
            let cost_zero = a[i0] == b[j0];
            proof {
                lemma_lev_le_max(a@.take(i0 as int), b@.take(j0 as int));
            }
            let mut best: usize = if cost_zero {
                diag
            } else {
                diag + 1
            };
            if up < best {
                best = up + 1;
            }
            if left < best {
                best = left + 1;
            }
            proof {
                let sp = a@.take(i0 as int + 1);
                let tp = b@.take(j0 as int + 1);
                assert(sp.len() == i0 + 1 && tp.len() == j0 + 1);
                assert(sp.drop_last() =~= a@.take(i0 as int));
                assert(tp.drop_last() =~= b@.take(j0 as int));
                assert(sp.last() == a@[i0 as int]);
                assert(tp.last() == b@[j0 as int]);
                // the three neighbours feeding the recurrence
                assert(lev(sp.drop_last(), tp) == up);
                assert(lev(sp, tp.drop_last()) == left);
                assert(lev(sp.drop_last(), tp.drop_last()) == diag);
                assert(best == min3(up + 1, left + 1, diag + (if cost_zero {
                    0int
                } else {
                    1int
                })));
                assert(lev(sp, tp) == min3(
                    (lev(sp.drop_last(), tp) + 1) as int,
                    (lev(sp, tp.drop_last()) + 1) as int,
                    (lev(sp.drop_last(), tp.drop_last()) + (if sp.last() == tp.last() {
                        0nat
                    } else {
                        1nat
                    })) as int,
                ) as nat);
                assert(best == lev(sp, tp));
            }
            diag = up;
            left = best;
            row.set(j0, best);
            j0 = j0 + 1;
        }
        i0 = i0 + 1;
    }
    proof {
        assert(a@.take(m as int) =~= a@);
        assert(b@.take(n as int) =~= b@);
    }
    row[n - 1]
}

/// The least of two values.
pub open spec fn min2(a: int, b: int) -> int {
    if a <= b {
        a
    } else {
        b
    }
}

/// The optimal-string-alignment distance: the edit distance when swapping
/// two adjacent characters also counts as one operation.
pub open spec fn osa(s: Seq<char>, t: Seq<char>) -> nat
    decreases s.len() + t.len(),
{
    if s.len() == 0 {
        t.len()
    } else if t.len() == 0 {
        s.len()
    } else {
        let c: nat = if s.last() == t.last() {
            0
        } else {
            1
        };
        let base = min3(
            (osa(s.drop_last(), t) + 1) as int,
            (osa(s, t.drop_last()) + 1) as int,
            (osa(s.drop_last(), t.drop_last()) + c) as int,
        );
        if s.len() >= 2 && t.len() >= 2 && s.last() == t[t.len() - 2] && s[s.len() - 2]
            == t.last() {
            min2(
                base,
                (osa(s.drop_last().drop_last(), t.drop_last().drop_last()) + 1) as int,
            ) as nat
        } else {
            base as nat
        }
    }
}

/// The distance never exceeds the longer value's length.
pub proof fn lemma_osa_le_max(s: Seq<char>, t: Seq<char>)
    ensures
        osa(s, t) <= s.len() || osa(s, t) <= t.len(),
        osa(s, t) <= s.len() + t.len(),
    decreases s.len() + t.len(),
{
    if s.len() == 0 || t.len() == 0 {
    } else {
        lemma_osa_le_max(s.drop_last(), t);
        lemma_osa_le_max(s, t.drop_last());
        lemma_osa_le_max(s.drop_last(), t.drop_last());
    }
}

/// The distance is zero exactly between equal values.
pub proof fn lemma_osa_zero_iff_eq(s: Seq<char>, t: Seq<char>)
    ensures
        osa(s, t) == 0 <==> s == t,
    decreases s.len() + t.len(),
{
    if s.len() == 0 {
        if t.len() == 0 {
            assert(s =~= t);
        }
    } else if t.len() == 0 {
    } else {
        lemma_osa_zero_iff_eq(s.drop_last(), t.drop_last());
        if s == t {
            assert(s.drop_last() =~= t.drop_last());
            assert(osa(s.drop_last(), t.drop_last()) == 0);
            assert(osa(s, t) == 0);
        }
        if osa(s, t) == 0 {
            assert(s.last() == t.last());
            assert(osa(s.drop_last(), t.drop_last()) == 0);
            assert(s.drop_last() =~= t.drop_last());
            assert(s =~= s.drop_last().push(s.last()));
            assert(t =~= t.drop_last().push(t.last()));
        }
    }
}

/// Computes the optimal-string-alignment distance between two character
/// sequences.
pub fn osa_distance(a: &Vec<char>, b: &Vec<char>) -> (r: usize)
    ensures
        r == osa(a@, b@),
{
    let m = a.len();
    let n = b.len();
    if m == 0 {
        return n;
    }
    if n == 0 {
        return m;
    }
    // row_prev holds, for the source prefix of length i0, the distances to
    // the target prefixes of lengths 1..=n; row_prev2 the same one row
    // higher (meaningful once two rows exist); the length-0 column is just
    // the row number.
    let mut row_prev: Vec<usize> = Vec::new();
    let mut k: usize = 0;
    while k < n
        invariant
            k <= n,
            n == b@.len(),
            row_prev@.len() == k,
            forall|j: int| 0 <= j < k ==> row_prev@[j] == j + 1,
        decreases n - k,
    {
        row_prev.push(k + 1);
        k = k + 1;
    }
    proof {
        assert forall|j: int| 1 <= j <= n implies osa(a@.take(0), b@.take(j)) == j by {
            assert(a@.take(0).len() == 0);
            assert(b@.take(j).len() == j);
        }
    }
    let mut row_prev2: Vec<usize> = Vec::new();
    let mut i0: usize = 0;
    while i0 < m
        invariant
            0 <= i0 <= m,
            m == a@.len(),
            n == b@.len(),
            m >= 1,
            n >= 1,
            row_prev@.len() == n,
            forall|jj: int|
                0 <= jj < n ==> row_prev@[jj] == osa(a@.take(i0 as int), b@.take(jj + 1)),
            i0 >= 1 ==> row_prev2@.len() == n,
            i0 >= 1 ==> (forall|jj: int|
                0 <= jj < n ==> row_prev2@[jj] == osa(a@.take(i0 - 1), b@.take(jj + 1))),
        decreases m - i0,
    {
        let mut cur: Vec<usize> = Vec::new();
        let mut diag: usize = i0;
        let mut left: usize = i0 + 1;
        proof {
            assert(a@.take(i0 as int).len() == i0);
            assert(b@.take(0).len() == 0);
            assert(osa(a@.take(i0 as int), b@.take(0)) == i0);
            assert(a@.take(i0 as int + 1).len() == i0 + 1);
            assert(osa(a@.take(i0 as int + 1), b@.take(0)) == i0 + 1);
            if i0 >= 1 {
                assert(a@.take(i0 - 1).len() == i0 - 1);
                assert(osa(a@.take(i0 - 1), b@.take(0)) == i0 - 1);
            }
        }
        let mut j0: usize = 0;
        while j0 < n
            invariant
                0 <= i0 < m,
                0 <= j0 <= n,
                m == a@.len(),
                n == b@.len(),
                row_prev@.len() == n,
                cur@.len() == j0,
                diag == osa(a@.take(i0 as int), b@.take(j0 as int)),
                left == osa(a@.take(i0 as int + 1), b@.take(j0 as int)),
                forall|jj: int|
                    0 <= jj < n ==> row_prev@[jj] == osa(a@.take(i0 as int), b@.take(jj + 1)),
                i0 >= 1 ==> row_prev2@.len() == n,
                i0 >= 1 ==> (forall|jj: int|
                    0 <= jj < n ==> row_prev2@[jj] == osa(a@.take(i0 - 1), b@.take(jj + 1))),
                forall|jj: int|
                    0 <= jj < j0 ==> cur@[jj] == osa(a@.take(i0 as int + 1), b@.take(jj + 1)),
            decreases n - j0,
        {
            let up = row_prev[j0];
            let cost_zero = a[i0] == b[j0];
            proof {
                lemma_osa_le_max(a@.take(i0 as int), b@.take(j0 as int));
            }
            let mut best: usize = if cost_zero {
                diag
            } else {
                diag + 1
            };
            if up < best {
                best = up + 1;
            }
            if left < best {
                best = left + 1;
            }
            let can_swap = i0 >= 1 && j0 >= 1 && a[i0] == b[j0 - 1] && a[i0 - 1] == b[j0];
            if can_swap {
                let two_back: usize = if j0 == 1 {
                    i0 - 1
                } else {
                    row_prev2[j0 - 2]
                };
                proof {
                    assert(two_back == osa(a@.take(i0 - 1), b@.take(j0 - 1)));
                    lemma_osa_le_max(a@.take(i0 - 1), b@.take(j0 - 1));
                }
                if two_back < best {
                    best = two_back + 1;
                }
            }
            proof {
                let sp = a@.take(i0 as int + 1);
                let tp = b@.take(j0 as int + 1);
                assert(sp.len() == i0 + 1 && tp.len() == j0 + 1);
                assert(sp.drop_last() =~= a@.take(i0 as int));
                assert(tp.drop_last() =~= b@.take(j0 as int));
                assert(sp.last() == a@[i0 as int]);
                assert(tp.last() == b@[j0 as int]);
                // the neighbours feeding the recurrence
                assert(osa(sp.drop_last(), tp) == up);
                assert(osa(sp, tp.drop_last()) == left);
                assert(osa(sp.drop_last(), tp.drop_last()) == diag);
                let base = min3(up + 1, left + 1, diag + (if cost_zero {
                    0int
                } else {
                    1int
                }));
                if can_swap {
                    assert(sp.len() >= 2 && tp.len() >= 2);
                    assert(tp[tp.len() - 2] == b@[j0 - 1]);
                    assert(sp[sp.len() - 2] == a@[i0 - 1]);
                    assert(sp.drop_last().drop_last() =~= a@.take(i0 - 1));
                    assert(tp.drop_last().drop_last() =~= b@.take(j0 - 1));
                    assert(best == min2(base, (osa(a@.take(i0 - 1), b@.take(j0 - 1)) + 1) as int));
                } else {
                    assert(!(sp.len() >= 2 && tp.len() >= 2 && sp.last() == tp[tp.len() - 2]
                        && sp[sp.len() - 2] == tp.last()));
                    assert(best == base);
                }
                assert(best == osa(sp, tp));
            }
            diag = up;
            left = best;
            cur.push(best);
            j0 = j0 + 1;
        }
        row_prev2 = row_prev;
        row_prev = cur;
        i0 = i0 + 1;
    }
    proof {
        assert(a@.take(m as int) =~= a@);
        assert(b@.take(n as int) =~= b@);
    }
    row_prev[n - 1]
}

/// The normalized swap-aware edit similarity on a per-mille scale: 1000
/// less the distance's share of the longer length, rounded up; 1000 exactly
/// between equal values.
pub open spec fn osa_sim_spec(s: Seq<char>, t: Seq<char>) -> int {
    if s.len() == 0 && t.len() == 0 {
        1000
    } else {
        let maxlen = if s.len() >= t.len() {
            s.len() as int
        } else {
            t.len() as int
        };
        1000 - (1000 * osa(s, t) + maxlen - 1) / maxlen
    }
}

/// The swap-aware similarity stays on the scale and tops it only for equal
/// values.
pub proof fn lemma_osa_sim_bounds(s: Seq<char>, t: Seq<char>)
    ensures
        0 <= osa_sim_spec(s, t) <= 1000,
        osa_sim_spec(s, t) == 1000 <==> s == t,
{
    lemma_osa_zero_iff_eq(s, t);
    if s.len() == 0 && t.len() == 0 {
        assert(s =~= t);
    } else {
        let maxlen = if s.len() >= t.len() {
            s.len() as int
        } else {
            t.len() as int
        };
        let d = osa(s, t) as int;
        lemma_osa_le_max(s, t);
        assert(d <= maxlen);
        assert(maxlen >= 1);
        let q = (1000 * d + maxlen - 1) / maxlen;
        assert(q >= 0) by (nonlinear_arith)
            requires
                maxlen >= 1,
                d >= 0,
                q == (1000 * d + maxlen - 1) / maxlen,
        ;
        assert(q <= 1000) by (nonlinear_arith)
            requires
                maxlen >= 1,
                0 <= d <= maxlen,
                q == (1000 * d + maxlen - 1) / maxlen,
        ;
        if d == 0 {
            assert(q == 0) by (nonlinear_arith)
                requires
                    maxlen >= 1,
                    q == (1000 * 0 + maxlen - 1) / maxlen,
            ;
        } else {
            assert(q >= 1) by (nonlinear_arith)
                requires
                    maxlen >= 1,
                    d >= 1,
                    q == (1000 * d + maxlen - 1) / maxlen,
            ;
        }
    }
}

/// Computes the normalized swap-aware edit similarity of two character
/// sequences.
pub fn osa_similarity(a: &Vec<char>, b: &Vec<char>) -> (r: u64)
    ensures
        r as int == osa_sim_spec(a@, b@),
{
    proof {
        lemma_osa_sim_bounds(a@, b@);
    }
    if a.len() == 0 && b.len() == 0 {
        return 1000;
    }
    let d = osa_distance(a, b);
    let maxlen = if a.len() >= b.len() {
        a.len()
    } else {
        b.len()
    };
    let num: u128 = 1000u128 * (d as u128) + (maxlen as u128) - 1;
    let q: u128 = num / (maxlen as u128);
    proof {
        assert(q == (1000 * (d as int) + (maxlen as int) - 1) / (maxlen as int));
        assert(q <= 1000);
    }
    1000 - (q as u64)
}

/// The normalized edit similarity on a per-mille scale: 1000 less the
/// distance's share of the longer length, rounded up; 1000 exactly between
/// equal values.
pub open spec fn lev_sim_spec(s: Seq<char>, t: Seq<char>) -> int {
    if s.len() == 0 && t.len() == 0 {
        1000
    } else {
        let maxlen = if s.len() >= t.len() {
            s.len() as int
        } else {
            t.len() as int
        };
        1000 - (1000 * lev(s, t) + maxlen - 1) / maxlen
    }
}

/// The normalized edit similarity stays on the scale and tops it only for
/// equal values.
pub proof fn lemma_lev_sim_bounds(s: Seq<char>, t: Seq<char>)
    ensures
        0 <= lev_sim_spec(s, t) <= 1000,
        lev_sim_spec(s, t) == 1000 <==> s == t,
{
    lemma_lev_zero_iff_eq(s, t);
    if s.len() == 0 && t.len() == 0 {
        assert(s =~= t);
    } else {
        let maxlen = if s.len() >= t.len() {
            s.len() as int
        } else {
            t.len() as int
        };
        let d = lev(s, t) as int;
        lemma_lev_le_max(s, t);
        assert(d <= maxlen);
        assert(maxlen >= 1);
        let q = (1000 * d + maxlen - 1) / maxlen;
        assert(q >= 0) by (nonlinear_arith)
            requires
                maxlen >= 1,
                d >= 0,
                q == (1000 * d + maxlen - 1) / maxlen,
        ;
        assert(q <= 1000) by (nonlinear_arith)
            requires
                maxlen >= 1,
                0 <= d <= maxlen,
                q == (1000 * d + maxlen - 1) / maxlen,
        ;
        if d == 0 {
            assert(q == 0) by (nonlinear_arith)
                requires
                    maxlen >= 1,
                    q == (1000 * 0 + maxlen - 1) / maxlen,
            ;
        } else {
            assert(q >= 1) by (nonlinear_arith)
                requires
                    maxlen >= 1,
                    d >= 1,
                    q == (1000 * d + maxlen - 1) / maxlen,
            ;
        }
    }
}

/// Computes the normalized edit similarity of two character sequences.
pub fn lev_similarity(a: &Vec<char>, b: &Vec<char>) -> (r: u64)
    ensures
        r as int == lev_sim_spec(a@, b@),
{
    proof {
        lemma_lev_sim_bounds(a@, b@);
    }
    if a.len() == 0 && b.len() == 0 {
        return 1000;
    }
    let d = levenshtein(a, b);
    let maxlen = if a.len() >= b.len() {
        a.len()
    } else {
        b.len()
    };
    let num: u128 = 1000u128 * (d as u128) + (maxlen as u128) - 1;
    let q: u128 = num / (maxlen as u128);
    proof {
        assert(q == (1000 * (d as int) + (maxlen as int) - 1) / (maxlen as int));
        assert(q <= 1000);
    }
    1000 - (q as u64)
}

/// How many leading characters two values share.
pub open spec fn common_prefix(s: Seq<char>, t: Seq<char>) -> nat
    decreases s.len(),
{
    if s.len() > 0 && t.len() > 0 && s[0] == t[0] {
        1 + common_prefix(s.drop_first(), t.drop_first())
    } else {
        0
    }
}

/// The short-value similarity: swap-aware normalized edit similarity with a
/// bonus for a shared prefix of up to four characters, a tenth of the
/// remaining gap per character -- it rewards shared prefixes and tolerates
/// adjacent transpositions.
pub open spec fn short_sim_spec(s: Seq<char>, t: Seq<char>) -> int {
    let base = osa_sim_spec(s, t);
    let p: int = if common_prefix(s, t) >= 4 {
        4
    } else {
        common_prefix(s, t) as int
    };
    base + (p * (1000 - base)) / 10
}

/// The short-value similarity stays on the scale and tops it only for equal
/// values.
pub proof fn lemma_short_sim_bounds(s: Seq<char>, t: Seq<char>)
    ensures
        0 <= short_sim_spec(s, t) <= 1000,
        short_sim_spec(s, t) == 1000 <==> s == t,
{
    lemma_osa_sim_bounds(s, t);
    let base = osa_sim_spec(s, t);
    let p: int = if common_prefix(s, t) >= 4 {
        4
    } else {
        common_prefix(s, t) as int
    };
    let g = 1000 - base;
    assert(0 <= p <= 4);
    assert(0 <= g <= 1000);
    assert((p * g) / 10 >= 0) by (nonlinear_arith)
        requires
            p >= 0,
            g >= 0,
    ;
    if s == t {
        assert(base == 1000);
        assert((p * 0) / 10 == 0) by (nonlinear_arith);
    } else {
        assert(base <= 999);
        assert(g >= 1);
        assert((p * g) / 10 <= g - 1) by (nonlinear_arith)
            requires
                0 <= p <= 4,
                g >= 1,
        ;
        assert(short_sim_spec(s, t) <= 999);
    }
}

fn common_prefix_capped(a: &Vec<char>, b: &Vec<char>) -> (r: u64)
    ensures
        r as int == if common_prefix(a@, b@) >= 4 {
            4int
        } else {
            common_prefix(a@, b@) as int
        },
{
    proof {
        lemma_common_prefix_index(a@, b@);
    }
    let mut i: usize = 0;
    while i < 4 && i < a.len() && i < b.len() && a[i] == b[i]
        invariant
            0 <= i <= 4,
            i <= a@.len(),
            i <= b@.len(),
            forall|k: int| 0 <= k < i ==> k < a@.len() && k < b@.len() && a@[k] == b@[k],
        decreases 4 - i,
    {
        i = i + 1;
    }
    proof {
        let cp = common_prefix(a@, b@);
        if i < 4 {
            assert(!(i < a@.len() && i < b@.len() && a@[i as int] == b@[i as int]));
            assert(cp == i) by {
                lemma_common_prefix_index(a@, b@);
            }
        } else {
            assert(cp >= 4) by {
                lemma_common_prefix_index(a@, b@);
            }
        }
    }
    i as u64
}

/// The shared prefix length is the first disagreeing position.
proof fn lemma_common_prefix_index(s: Seq<char>, t: Seq<char>)
    ensures
        common_prefix(s, t) <= s.len() && common_prefix(s, t) <= t.len(),
        forall|k: int|
            0 <= k < common_prefix(s, t) ==> k < s.len() && k < t.len() && s[k] == t[k],
        (common_prefix(s, t) < s.len() && common_prefix(s, t) < t.len()) ==> s[common_prefix(
            s,
            t,
        ) as int] != t[common_prefix(s, t) as int],
        forall|n: int|
            (0 <= n <= s.len() && n <= t.len() && (forall|k: int|
                0 <= k < n ==> s[k] == t[k]) && (n < s.len() && n < t.len() ==> s[n] != t[n]))
                ==> common_prefix(s, t) >= n || common_prefix(s, t) == n,
    decreases s.len(),
{
    if s.len() > 0 && t.len() > 0 && s[0] == t[0] {
        lemma_common_prefix_index(s.drop_first(), t.drop_first());
        let cp = common_prefix(s, t);
        assert(cp == 1 + common_prefix(s.drop_first(), t.drop_first()));
        assert forall|k: int| 0 <= k < cp implies k < s.len() && k < t.len() && s[k] == t[k] by {
            if k > 0 {
                assert(s.drop_first()[k - 1] == s[k]);
                assert(t.drop_first()[k - 1] == t[k]);
            }
        }
        if cp < s.len() && cp < t.len() {
            assert(s.drop_first()[cp - 1] == s[cp as int]);
            assert(t.drop_first()[cp - 1] == t[cp as int]);
        }
        assert forall|n: int|
            (0 <= n <= s.len() && n <= t.len() && (forall|k: int|
                0 <= k < n ==> s[k] == t[k]) && (n < s.len() && n < t.len() ==> s[n]
                != t[n])) implies common_prefix(s, t) >= n by {
            if n > cp {
                if cp < s.len() && cp < t.len() {
                    assert(s[cp as int] == t[cp as int]);
                    assert(false);
                } else {
                    assert(false);
                }
            }
        }
    } else {
        let cp = common_prefix(s, t);
        assert(cp == 0);
        assert forall|n: int|
            (0 <= n <= s.len() && n <= t.len() && (forall|k: int|
                0 <= k < n ==> s[k] == t[k]) && (n < s.len() && n < t.len() ==> s[n]
                != t[n])) implies common_prefix(s, t) >= n by {
            if n > 0 {
                assert(s[0] == t[0]);
                assert(false);
            }
        }
    }
}

/// Computes the short-value similarity of two character sequences.
pub fn short_similarity(a: &Vec<char>, b: &Vec<char>) -> (r: u64)
    ensures
        r as int == short_sim_spec(a@, b@),
{
    proof {
        lemma_osa_sim_bounds(a@, b@);
        lemma_short_sim_bounds(a@, b@);
    }
    let base = osa_similarity(a, b);
    let p = common_prefix_capped(a, b);
    let boost: u64 = (p * (1000 - base)) / 10;
    proof {
        assert(boost as int == ((p as int) * (1000 - base as int)) / 10);
    }
    base + boost
}

/// The similarity of two cells: the prefix-rewarding metric for values of at
/// most twenty characters each, the plain normalized metric otherwise.
pub open spec fn cell_sim_spec(x: Seq<char>, y: Seq<char>) -> int {
    if x.len() <= 20 && y.len() <= 20 {
        short_sim_spec(x, y)
    } else {
        lev_sim_spec(x, y)
    }
}

/// A cell similarity stays on the scale and tops it only for equal values.
pub proof fn lemma_cell_sim_bounds(x: Seq<char>, y: Seq<char>)
    ensures
        0 <= cell_sim_spec(x, y) <= 1000,
        cell_sim_spec(x, y) == 1000 <==> x == y,
{
    lemma_short_sim_bounds(x, y);
    lemma_lev_sim_bounds(x, y);
}

/// Computes the similarity of two already-normalized cells.
pub fn cell_similarity(x: &Vec<char>, y: &Vec<char>) -> (r: u64)
    ensures
        r as int == cell_sim_spec(x@, y@),
{
    if x.len() <= 20 && y.len() <= 20 {
        short_similarity(x, y)
    } else {
        lev_similarity(x, y)
    }
}

/// Whether a column takes part in row scoring: mapped on both sides and not
/// excluded.
pub open spec fn shared_col(map1: Map<Seq<char>, usize>, map2: Map<Seq<char>, usize>,
    excluded: Seq<Seq<char>>, h: Seq<char>) -> bool {
    map1.contains_key(h) && map2.contains_key(h) && !seq_has(excluded, h)
}

/// How many of the first `headers` columns take part in row scoring.
pub open spec fn sim_count(map1: Map<Seq<char>, usize>, map2: Map<Seq<char>, usize>,
    headers: Seq<Seq<char>>, excluded: Seq<Seq<char>>) -> int
    decreases headers.len(),
{
    if headers.len() == 0 {
        0
    } else {
        sim_count(map1, map2, headers.drop_last(), excluded) + (if shared_col(map1, map2, excluded,
            headers.last()) {
            1int
        } else {
            0int
        })
    }
}

/// The summed cell similarities of the scored columns.
pub open spec fn sim_total(row1: Seq<Seq<char>>, row2: Seq<Seq<char>>, map1: Map<Seq<char>, usize>,
    map2: Map<Seq<char>, usize>, headers: Seq<Seq<char>>, excluded: Seq<Seq<char>>, cs: bool,
    iw: bool, ien: bool) -> int
    decreases headers.len(),
{
    if headers.len() == 0 {
        0
    } else {
        sim_total(row1, row2, map1, map2, headers.drop_last(), excluded, cs, iw, ien) + (
        if shared_col(map1, map2, excluded, headers.last()) {
            cell_sim_spec(
                norm_spec(col_value(row1, map1, headers.last()), cs, iw, ien),
                norm_spec(col_value(row2, map2, headers.last()), cs, iw, ien),
            )
        } else {
            0int
        })
    }
}

/// The similarity of two rows: the average cell similarity over the shared,
/// non-excluded columns of their normalized cells; zero when no column is
/// scored.
pub open spec fn row_sim_spec(row1: Seq<Seq<char>>, row2: Seq<Seq<char>>, map1: Map<
    Seq<char>,
    usize,
>, map2: Map<Seq<char>, usize>, headers: Seq<Seq<char>>, excluded: Seq<Seq<char>>, cs: bool,
    iw: bool, ien: bool) -> int {
    let cnt = sim_count(map1, map2, headers, excluded);
    if cnt == 0 {
        0
    } else {
        sim_total(row1, row2, map1, map2, headers, excluded, cs, iw, ien) / cnt
    }
}

/// Sums stay within `1000` per scored column.
proof fn lemma_sim_total_bounds(row1: Seq<Seq<char>>, row2: Seq<Seq<char>>, map1: Map<
    Seq<char>,
    usize,
>, map2: Map<Seq<char>, usize>, headers: Seq<Seq<char>>, excluded: Seq<Seq<char>>, cs: bool,
    iw: bool, ien: bool)
    ensures
        0 <= sim_count(map1, map2, headers, excluded) <= headers.len(),
        0 <= sim_total(row1, row2, map1, map2, headers, excluded, cs, iw, ien) <= 1000 * sim_count(
            map1,
            map2,
            headers,
            excluded,
        ),
    decreases headers.len(),
{
    if headers.len() == 0 {
    } else {
        lemma_sim_total_bounds(row1, row2, map1, map2, headers.drop_last(), excluded, cs, iw, ien);
        if shared_col(map1, map2, excluded, headers.last()) {
            lemma_cell_sim_bounds(
                norm_spec(col_value(row1, map1, headers.last()), cs, iw, ien),
                norm_spec(col_value(row2, map2, headers.last()), cs, iw, ien),
            );
        }
    }
}

/// A row similarity stays on the per-mille scale.
pub proof fn lemma_row_sim_bounds(row1: Seq<Seq<char>>, row2: Seq<Seq<char>>, map1: Map<
    Seq<char>,
    usize,
>, map2: Map<Seq<char>, usize>, headers: Seq<Seq<char>>, excluded: Seq<Seq<char>>, cs: bool,
    iw: bool, ien: bool)
    ensures
        0 <= row_sim_spec(row1, row2, map1, map2, headers, excluded, cs, iw, ien) <= 1000,
{
    lemma_sim_total_bounds(row1, row2, map1, map2, headers, excluded, cs, iw, ien);
    let cnt = sim_count(map1, map2, headers, excluded);
    let tot = sim_total(row1, row2, map1, map2, headers, excluded, cs, iw, ien);
    if cnt != 0 {
        assert(0 <= tot / cnt <= 1000) by (nonlinear_arith)
            requires
                cnt >= 1,
                0 <= tot <= 1000 * cnt,
        ;
    }
}

/// Computes the similarity of two rows under the run's policy: the average
/// per-mille cell similarity over the shared, non-excluded columns of the
/// normalized cells.
pub fn calculate_row_similarity(row1: &Vec<String>, row2: &Vec<String>, headers: &Vec<String>,
    header_map1: &vstd::hash_map::StringHashMap<usize>,
    header_map2: &vstd::hash_map::StringHashMap<usize>, excluded_columns: &Vec<String>,
    case_sensitive: bool, ignore_whitespace: bool, ignore_empty_vs_null: bool) -> (r: u64)
    ensures
        r as int == row_sim_spec(row1.deep_view(), row2.deep_view(), header_map1@, header_map2@,
            headers.deep_view(), excluded_columns.deep_view(), case_sensitive, ignore_whitespace,
            ignore_empty_vs_null),
        r <= 1000,
{
    let ghost r1 = row1.deep_view();
    let ghost r2 = row2.deep_view();
    let ghost m1 = header_map1@;
    let ghost m2 = header_map2@;
    let ghost ex = excluded_columns.deep_view();
    let mut total: u128 = 0;
    let mut count: u64 = 0;
    let mut i: usize = 0;
    while i < headers.len()
        invariant
            i <= headers.len(),
            headers.deep_view().len() == headers@.len(),
            forall|k: int| 0 <= k < headers@.len() ==> headers.deep_view()[k] == headers@[k]@,
            r1 == row1.deep_view(),
            r2 == row2.deep_view(),
            m1 == header_map1@,
            m2 == header_map2@,
            ex == excluded_columns.deep_view(),
            count as int == sim_count(m1, m2, headers.deep_view().take(i as int), ex),
            total as int == sim_total(r1, r2, m1, m2, headers.deep_view().take(i as int), ex,
                case_sensitive, ignore_whitespace, ignore_empty_vs_null),
            count <= i,
            total <= 1000 * (count as u128),
        decreases headers.len() - i,
    {
        proof {
            let hv = headers.deep_view();
            assert(hv.take(i as int + 1).drop_last() =~= hv.take(i as int));
            assert(hv.take(i as int + 1).last() == hv[i as int]);
        }
        let h = &headers[i];
        let in1 = header_map1.get(h.as_str());
        let in2 = header_map2.get(h.as_str());
        let excluded_here = contains_str(excluded_columns, h.as_str());
        match (in1, in2) {
            (Some(i1), Some(i2)) => {
                if !excluded_here {
                    let v1: &str = if *i1 < row1.len() {
                        row1[*i1].as_str()
                    } else {
                        proof {
                            reveal_strlit("");
                        }
                        ""
                    };
                    let v2: &str = if *i2 < row2.len() {
                        row2[*i2].as_str()
                    } else {
                        proof {
                            reveal_strlit("");
                        }
                        ""
                    };
                    let n1 = normalize_value_cow(v1, case_sensitive, ignore_whitespace,
                        ignore_empty_vs_null);
                    let n2 = normalize_value_cow(v2, case_sensitive, ignore_whitespace,
                        ignore_empty_vs_null);
                    let c1 = chars_of(n1.as_str());
                    let c2 = chars_of(n2.as_str());
                    proof {
                        assert(v1@ == col_value(r1, m1, headers.deep_view()[i as int]));
                        assert(v2@ == col_value(r2, m2, headers.deep_view()[i as int]));
                        lemma_cell_sim_bounds(c1@, c2@);
                    }
                    let s = cell_similarity(&c1, &c2);
                    total = total + (s as u128);
                    count = count + 1;
                } else {
                    proof {
                        assert(seq_has(ex, headers.deep_view()[i as int]));
                    }
                }
            },
            _ => {
            },
        }
        i = i + 1;
    }
    proof {
        assert(headers.deep_view().take(headers@.len() as int) =~= headers.deep_view());
    }
    if count == 0 {
        0
    } else {
        let r: u128 = total / (count as u128);
        proof {
            assert(r as int == (total as int) / (count as int));
            assert(r <= 1000) by (nonlinear_arith)
                requires
                    count >= 1,
                    total <= 1000 * (count as u128),
                    r == total / (count as u128),
            ;
        }
        r as u64
    }
}

} // verus!
