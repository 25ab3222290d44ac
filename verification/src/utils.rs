//! Value normalization, row keys and row fingerprints: the row model every
//! comparison in the engine goes through.

use vstd::prelude::*;
use crate::text::{chars_of, trim_chars, string_from_chars, lowercase, trim_spec, lower_of};

verus! {

use vstd::string::StringExecFns;

/// ASCII-case-insensitive equality of a character with a lowercase letter.
pub open spec fn ieq_ascii(c: char, lower: char) -> bool {
    c == lower || (c as u32) + 32 == (lower as u32)
}

/// Whether a trimmed value spells "null" up to ASCII case.
pub open spec fn is_null_word(t: Seq<char>) -> bool {
    t.len() == 4 && ieq_ascii(t[0], 'n') && ieq_ascii(t[1], 'u') && ieq_ascii(t[2], 'l')
        && ieq_ascii(t[3], 'l')
}

/// Whether a value is blank or the word "null" once surrounding whitespace is
/// dropped.
pub open spec fn empty_or_null_spec(s: Seq<char>) -> bool {
    trim_spec(s).len() == 0 || is_null_word(trim_spec(s))
}

/// The sentinel that stands for "empty or null" when the policy collapses the
/// two; it is distinct from any value the normalizer can produce from data.
pub open spec fn sentinel_seq() -> Seq<char> {
    "EMPTY_OR_NULL"@
}

/// What normalization returns for a raw cell value under the given policy:
/// trim iff `ignore_whitespace`, collapse blank/"null" to the sentinel iff
/// `ignore_empty_vs_null`, and fold case iff not `case_sensitive`.
pub open spec fn norm_spec(v: Seq<char>, cs: bool, iw: bool, ien: bool) -> Seq<char> {
    let t = if iw {
        trim_spec(v)
    } else {
        v
    };
    if ien && empty_or_null_spec(t) {
        sentinel_seq()
    } else if cs {
        t
    } else {
        lower_of(t)
    }
}

fn ieq_char(c: char, lower: char) -> (r: bool)
    ensures
        r == ieq_ascii(c, lower),
{
    c == lower || (c as u32) + 32 == (lower as u32)
}

fn is_empty_or_null_chars(v: &Vec<char>) -> (r: bool)
    ensures
        r == empty_or_null_spec(v@),
{
    let t = trim_chars(v);
    if t.len() == 0 {
        true
    } else if t.len() == 4 {
        ieq_char(t[0], 'n') && ieq_char(t[1], 'u') && ieq_char(t[2], 'l') && ieq_char(t[3], 'l')
    } else {
        false
    }
}

/// Whether a value is blank or the word "null" (ASCII case-insensitively)
/// after trimming.
pub fn is_empty_or_null(value: &str) -> (r: bool)
    ensures
        r == empty_or_null_spec(value@),
{
    let cv = chars_of(value);
    is_empty_or_null_chars(&cv)
}

/// Normalizes a raw cell value for comparison under the given policy.
pub fn normalize_value_cow(value: &str, case_sensitive: bool, ignore_whitespace: bool,
    ignore_empty_vs_null: bool) -> (r: String)
    ensures
        r@ == norm_spec(value@, case_sensitive, ignore_whitespace, ignore_empty_vs_null),
{
    let cv = chars_of(value);
    let t = if ignore_whitespace {
        trim_chars(&cv)
    } else {
        cv
    };
    if ignore_empty_vs_null && is_empty_or_null_chars(&t) {
        let s = "EMPTY_OR_NULL";
        s.to_owned()
    } else if case_sensitive {
        string_from_chars(&t)
    } else {
        let owned = string_from_chars(&t);
        lowercase(owned.as_str())
    }
}

/// Normalizes a raw cell value for comparison under the given policy.
pub fn normalize_value_with_empty_vs_null(value: &str, case_sensitive: bool,
    ignore_whitespace: bool, ignore_empty_vs_null: bool) -> (r: String)
    ensures
        r@ == norm_spec(value@, case_sensitive, ignore_whitespace, ignore_empty_vs_null),
{
    normalize_value_cow(value, case_sensitive, ignore_whitespace, ignore_empty_vs_null)
}

/// Whether some element of `s` equals `x`.
pub open spec fn seq_has(s: Seq<Seq<char>>, x: Seq<char>) -> bool {
    exists|i: int| 0 <= i < s.len() && s[i] == x
}

/// Whether one of the strings in `v` equals `x`.
pub fn contains_str(v: &Vec<String>, x: &str) -> (r: bool)
    ensures
        r == seq_has(v.deep_view(), x@),
{
    let mut i: usize = 0;
    while i < v.len()
        invariant
            i <= v.len(),
            v.deep_view().len() == v@.len(),
            forall|k: int| 0 <= k < v@.len() ==> v.deep_view()[k] == v@[k]@,
            forall|k: int| 0 <= k < i ==> v@[k]@ != x@,
        decreases v.len() - i,
    {
        if crate::text::str_eq(v[i].as_str(), x) {
            proof {
                assert(v.deep_view()[i as int] == x@);
            }
            return true;
        }
        i = i + 1;
    }
    false
}

/// The cell a row holds for a named column, or the empty value when the
/// column is unmapped or out of range.
pub open spec fn col_value(row: Seq<Seq<char>>, hmap: Map<Seq<char>, usize>, col: Seq<
    char,
>) -> Seq<char> {
    if hmap.contains_key(col) && (hmap[col] as int) < row.len() {
        row[hmap[col] as int]
    } else {
        Seq::empty()
    }
}

/// The values joined by `join_sep`, separated by `sep`; no separator leads or
/// trails.
pub open spec fn join_sep(vals: Seq<Seq<char>>, sep: Seq<char>) -> Seq<char>
    decreases vals.len(),
{
    if vals.len() == 0 {
        Seq::empty()
    } else if vals.len() == 1 {
        vals[0]
    } else {
        vals[0] + sep + join_sep(vals.drop_first(), sep)
    }
}

proof fn lemma_join_push(vals: Seq<Seq<char>>, sep: Seq<char>, x: Seq<char>)
    ensures
        join_sep(vals.push(x), sep) == if vals.len() == 0 {
            x
        } else {
            join_sep(vals, sep) + sep + x
        },
    decreases vals.len(),
{
    if vals.len() == 0 {
        assert(vals.push(x).len() == 1);
        assert(join_sep(vals.push(x), sep) == vals.push(x)[0]);
    } else {
        assert(vals.push(x).drop_first() =~= vals.drop_first().push(x));
        lemma_join_push(vals.drop_first(), sep, x);
        if vals.len() == 1 {
            assert(vals.drop_first().len() == 0);
            assert(join_sep(vals.push(x), sep) == vals[0] + sep + x);
            assert(join_sep(vals, sep) == vals[0]);
        } else {
            assert(join_sep(vals.push(x), sep) == vals[0] + sep + (join_sep(
                vals.drop_first(),
                sep,
            ) + sep + x));
            assert(vals[0] + sep + (join_sep(vals.drop_first(), sep) + sep + x) =~= (vals[0] + sep
                + join_sep(vals.drop_first(), sep)) + sep + x);
        }
    }
}

/// Joins the strings in `vals` with the separator `sep`.
pub fn join_strings(vals: &Vec<String>, sep: &str) -> (r: String)
    ensures
        r@ == join_sep(vals.deep_view(), sep@),
{
    let mut r = String::new();
    let mut i: usize = 0;
    while i < vals.len()
        invariant
            i <= vals.len(),
            vals.deep_view().len() == vals@.len(),
            forall|k: int| 0 <= k < vals@.len() ==> vals.deep_view()[k] == vals@[k]@,
            r@ == join_sep(vals.deep_view().take(i as int), sep@),
        decreases vals.len() - i,
    {
        if i > 0 {
            r.append(sep);
        }
        r.append(vals[i].as_str());
        proof {
            let dv = vals.deep_view();
            assert(dv.take(i as int).push(dv[i as int]) =~= dv.take(i as int + 1));
            lemma_join_push(dv.take(i as int), sep@, dv[i as int]);
        }
        i = i + 1;
    }
    proof {
        assert(vals.deep_view().take(vals@.len() as int) =~= vals.deep_view());
    }
    r
}

/// The normalized key-column values of a row, in key order.
pub open spec fn key_vals(row: Seq<Seq<char>>, hmap: Map<Seq<char>, usize>, keys: Seq<Seq<char>>,
    cs: bool, iw: bool, ien: bool) -> Seq<Seq<char>>
    decreases keys.len(),
{
    if keys.len() == 0 {
        Seq::empty()
    } else {
        key_vals(row, hmap, keys.drop_last(), cs, iw, ien).push(
            norm_spec(col_value(row, hmap, keys.last()), cs, iw, ien),
        )
    }
}

/// The row key: normalized key-column values joined by `|`.
pub open spec fn key_spec(row: Seq<Seq<char>>, hmap: Map<Seq<char>, usize>, keys: Seq<Seq<char>>,
    cs: bool, iw: bool, ien: bool) -> Seq<char> {
    join_sep(key_vals(row, hmap, keys, cs, iw, ien), "|"@)
}

fn lookup_cell<'a>(row: &'a Vec<String>, hmap: &vstd::hash_map::StringHashMap<usize>,
    col: &'a String) -> (r: &'a str)
    ensures
        r@ == col_value(row.deep_view(), hmap@, col@),
{
    match hmap.get(col.as_str()) {
        Some(ix) => {
            if *ix < row.len() {
                row[*ix].as_str()
            } else {
                proof {
                    reveal_strlit("");
                }
                ""
            }
        },
        None => {
            proof {
                reveal_strlit("");
            }
            ""
        },
    }
}

/// Builds the primary key of a row: the normalized values of the key columns
/// joined by `|`.
pub fn get_row_key(row: &Vec<String>, header_map: &vstd::hash_map::StringHashMap<usize>,
    key_columns: &Vec<String>, case_sensitive: bool, ignore_whitespace: bool,
    ignore_empty_vs_null: bool) -> (r: String)
    ensures
        r@ == key_spec(row.deep_view(), header_map@, key_columns.deep_view(), case_sensitive,
            ignore_whitespace, ignore_empty_vs_null),
{
    let mut vals: Vec<String> = Vec::new();
    let mut i: usize = 0;
    while i < key_columns.len()
        invariant
            i <= key_columns.len(),
            key_columns.deep_view().len() == key_columns@.len(),
            forall|k: int|
                0 <= k < key_columns@.len() ==> key_columns.deep_view()[k] == key_columns@[k]@,
            vals.deep_view() == key_vals(row.deep_view(), header_map@,
                key_columns.deep_view().take(i as int), case_sensitive, ignore_whitespace,
                ignore_empty_vs_null),
        decreases key_columns.len() - i,
    {
        let cell = lookup_cell(row, header_map, &key_columns[i]);
        let nv = normalize_value_cow(cell, case_sensitive, ignore_whitespace,
            ignore_empty_vs_null);
        vals.push(nv);
        proof {
            let kv = key_columns.deep_view();
            assert(kv.take(i as int + 1).drop_last() =~= kv.take(i as int));
            assert(kv.take(i as int + 1).last() == kv[i as int]);
            assert(vals.deep_view() =~= key_vals(row.deep_view(), header_map@, kv.take(i as int),
                case_sensitive, ignore_whitespace, ignore_empty_vs_null).push(nv@));
        }
        i = i + 1;
    }
    proof {
        assert(key_columns.deep_view().take(key_columns@.len() as int)
            =~= key_columns.deep_view());
    }
    join_strings(&vals, "|")
}

/// The normalized values of the non-excluded columns of a row, in header
/// order.
pub open spec fn fp_vals(row: Seq<Seq<char>>, hmap: Map<Seq<char>, usize>, headers: Seq<Seq<char>>,
    excluded: Seq<Seq<char>>, cs: bool, iw: bool, ien: bool) -> Seq<Seq<char>>
    decreases headers.len(),
{
    if headers.len() == 0 {
        Seq::empty()
    } else {
        let rest = fp_vals(row, hmap, headers.drop_last(), excluded, cs, iw, ien);
        if seq_has(excluded, headers.last()) {
            rest
        } else {
            rest.push(norm_spec(col_value(row, hmap, headers.last()), cs, iw, ien))
        }
    }
}

/// The row fingerprint: normalized non-excluded values joined by `||`.
pub open spec fn fp_spec(row: Seq<Seq<char>>, hmap: Map<Seq<char>, usize>, headers: Seq<Seq<char>>,
    excluded: Seq<Seq<char>>, cs: bool, iw: bool, ien: bool) -> Seq<char> {
    join_sep(fp_vals(row, hmap, headers, excluded, cs, iw, ien), "||"@)
}

/// Builds the fingerprint of a row: the normalized values of the non-excluded
/// columns, in header order, joined by `||`.
pub fn get_row_fingerprint(row: &Vec<String>, headers: &Vec<String>,
    header_map: &vstd::hash_map::StringHashMap<usize>, case_sensitive: bool,
    ignore_whitespace: bool, ignore_empty_vs_null: bool, excluded_columns: &Vec<String>) -> (r:
    String)
    ensures
        r@ == fp_spec(row.deep_view(), header_map@, headers.deep_view(),
            excluded_columns.deep_view(), case_sensitive, ignore_whitespace, ignore_empty_vs_null),
{
    let mut vals: Vec<String> = Vec::new();
    let mut i: usize = 0;
    while i < headers.len()
        invariant
            i <= headers.len(),
            headers.deep_view().len() == headers@.len(),
            forall|k: int| 0 <= k < headers@.len() ==> headers.deep_view()[k] == headers@[k]@,
            vals.deep_view() == fp_vals(row.deep_view(), header_map@,
                headers.deep_view().take(i as int), excluded_columns.deep_view(), case_sensitive,
                ignore_whitespace, ignore_empty_vs_null),
        decreases headers.len() - i,
    {
        proof {
            let hv = headers.deep_view();
            assert(hv.take(i as int + 1).drop_last() =~= hv.take(i as int));
            assert(hv.take(i as int + 1).last() == hv[i as int]);
        }
        if !contains_str(excluded_columns, headers[i].as_str()) {
            let cell = lookup_cell(row, header_map, &headers[i]);
            let nv = normalize_value_cow(cell, case_sensitive, ignore_whitespace,
                ignore_empty_vs_null);
            vals.push(nv);
            proof {
                let hv = headers.deep_view();
                assert(vals.deep_view() =~= fp_vals(row.deep_view(), header_map@,
                    hv.take(i as int), excluded_columns.deep_view(), case_sensitive,
                    ignore_whitespace, ignore_empty_vs_null).push(nv@));
            }
        }
        i = i + 1;
    }
    proof {
        assert(headers.deep_view().take(headers@.len() as int) =~= headers.deep_view());
    }
    join_strings(&vals, "||")
}

/// Pairs every header with the row's cell at the same position, an empty cell
/// where the row is short.
pub fn record_to_fields(row: &Vec<String>, headers: &Vec<String>) -> (r: Vec<(String, String)>)
    ensures
        r@.len() == headers@.len(),
        forall|i: int|
            0 <= i < r@.len() ==> (#[trigger] r@[i]).0@ == headers.deep_view()[i] && r@[i].1@ == (
            if i < row.deep_view().len() {
                row.deep_view()[i]
            } else {
                Seq::<char>::empty()
            }),
{
    let mut r: Vec<(String, String)> = Vec::new();
    let mut i: usize = 0;
    while i < headers.len()
        invariant
            i <= headers.len(),
            r@.len() == i,
            headers.deep_view().len() == headers@.len(),
            row.deep_view().len() == row@.len(),
            forall|k: int| 0 <= k < headers@.len() ==> headers.deep_view()[k] == headers@[k]@,
            forall|k: int| 0 <= k < row@.len() ==> row.deep_view()[k] == row@[k]@,
            forall|k: int|
                0 <= k < i ==> (#[trigger] r@[k]).0@ == headers.deep_view()[k] && r@[k].1@ == (
                if k < row.deep_view().len() {
                    row.deep_view()[k]
                } else {
                    Seq::<char>::empty()
                }),
        decreases headers.len() - i,
    {
        let cell: String = if i < row.len() {
            row[i].clone()
        } else {
            proof {
                reveal_strlit("");
            }
            String::new()
        };
        r.push((headers[i].clone(), cell));
        i = i + 1;
    }
    r
}

} // verus!
