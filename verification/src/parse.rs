//! Record reading and header resolution: raw delimited text becomes a
//! `Dataset` with positional headers, rows of equal width, and a name-to-
//! position map.  Tokenizing and quoting are the record reader's business;
//! deciding whether the first record is headers or data is this module's.

use vstd::prelude::*;
use crate::text::{chars_of, chars_all_digits, dec_string, all_digits, dec_spec};
use crate::types::DiffError;
use crate::utils::seq_has;

verus! {

use vstd::string::StringExecFns;

broadcast use vstd::std_specs::vec::vec_clone_deep_view_proof;

/// The error type of the record reader.
#[verifier::external_type_specification]
#[verifier::external_body]
pub struct ExCsvError(csv::Error);

/// Whether the record reader accepts this text: a function of the text alone.
pub uninterp spec fn csv_ok(s: Seq<char>) -> bool;

/// The records the reader produces from this text, each a sequence of
/// trimmed cell values: a function of the text alone.
pub uninterp spec fn csv_table(s: Seq<char>) -> Seq<Seq<Seq<char>>>;

/// Relies on `csv::Reader` (headerless, trimming): it yields every record of
/// the text or fails, the outcome depending on the text alone; accepted
/// records all carry the same number of fields, and empty text yields no
/// records.
#[verifier::external_body]
fn read_records(text: &str) -> (r: Result<Vec<Vec<String>>, csv::Error>)
    ensures
        r is Ok <==> csv_ok(text@),
        r is Ok ==> r->Ok_0.deep_view() == csv_table(text@),
        r is Ok ==> forall|i: int|
            0 <= i < r->Ok_0.deep_view().len() ==> (#[trigger] r->Ok_0.deep_view()[i]).len()
                == r->Ok_0.deep_view()[0].len(),
        text@.len() == 0 ==> r is Ok && r->Ok_0@.len() == 0,
{
    let mut rdr = csv::ReaderBuilder::new().has_headers(false).trim(csv::Trim::All).from_reader(
        text.as_bytes(),
    );
    let mut out: Vec<Vec<String>> = Vec::new();
    for rec in rdr.records() {
        match rec {
            Ok(r) => out.push(r.iter().map(|f| f.to_string()).collect()),
            Err(e) => {
                return Err(e);
            },
        }
    }
    Ok(out)
}

/// Relies on the blanket `ToString` of the reader's error; nothing is
/// promised of the message text.
#[verifier::external_body]
fn csv_error_message(e: &csv::Error) -> String {
    e.to_string()
}

/// Whether the first record of a table reads as data rather than headers:
/// every token is all digits and its width matches the first data row's.
pub open spec fn header_row_is_data(table: Seq<Seq<Seq<char>>>) -> bool {
    table.len() >= 2 && table[0].len() == table[1].len() && (forall|i: int|
        0 <= i < table[0].len() ==> all_digits(#[trigger] table[0][i]))
}

/// The positional header names `Column1..ColumnN`.
pub open spec fn synth_headers(n: int) -> Seq<Seq<char>> {
    Seq::new(n as nat, |i: int| "Column"@ + dec_spec(i + 1))
}

/// The headers a raw table resolves to.
pub open spec fn resolved_headers(table: Seq<Seq<Seq<char>>>, has_headers: bool) -> Seq<Seq<char>> {
    if table.len() == 0 {
        Seq::empty()
    } else if has_headers && !header_row_is_data(table) {
        table[0]
    } else {
        synth_headers(table[0].len() as int)
    }
}

/// The data rows a raw table resolves to.
pub open spec fn resolved_rows(table: Seq<Seq<Seq<char>>>, has_headers: bool) -> Seq<
    Seq<Seq<char>>,
> {
    if table.len() == 0 {
        Seq::empty()
    } else if has_headers && !header_row_is_data(table) {
        table.drop_first()
    } else {
        table
    }
}

/// A parsed dataset: ordered headers, rows of the same width, and a map from
/// header name to position.
pub struct Dataset {
    pub headers: Vec<String>,
    pub rows: Vec<Vec<String>>,
    pub header_map: vstd::hash_map::StringHashMap<usize>,
}

impl Dataset {
    /// Rows match the header width, and the header map sends exactly the
    /// header names to positions holding them.
    pub open spec fn wf(&self) -> bool {
        &&& forall|i: int|
            0 <= i < self.rows.deep_view().len() ==> (#[trigger] self.rows.deep_view()[i]).len()
                == self.headers.deep_view().len()
        &&& forall|k: Seq<char>|
            self.header_map@.contains_key(k) <==> seq_has(self.headers.deep_view(), k)
        &&& forall|k: Seq<char>|
            #[trigger] self.header_map@.contains_key(k) ==> (self.header_map@[k] as int)
                < self.headers.deep_view().len() && self.headers.deep_view()[self.header_map@[k] as int]
                == k
    }
}

/// The last position a name occupies in a header list, or `-1`.
pub open spec fn last_pos(headers: Seq<Seq<char>>, k: Seq<char>) -> int
    decreases headers.len(),
{
    if headers.len() == 0 {
        -1
    } else if headers.last() == k {
        headers.len() - 1
    } else {
        last_pos(headers.drop_last(), k)
    }
}

/// A name's last position is a position holding it, and names out of the
/// list have none.
pub proof fn lemma_last_pos(headers: Seq<Seq<char>>, k: Seq<char>)
    ensures
        seq_has(headers, k) ==> 0 <= last_pos(headers, k) < headers.len() && headers[last_pos(
            headers,
            k,
        )] == k,
        !seq_has(headers, k) ==> last_pos(headers, k) == -1,
    decreases headers.len(),
{
    if headers.len() > 0 {
        lemma_last_pos(headers.drop_last(), k);
        if headers.last() != k {
            if seq_has(headers, k) {
                let w = choose|w: int| 0 <= w < headers.len() && headers[w] == k;
                assert(w < headers.len() - 1);
                assert(headers.drop_last()[w] == k);
                assert(seq_has(headers.drop_last(), k));
            }
            if seq_has(headers.drop_last(), k) {
                let w = choose|w: int|
                    0 <= w < headers.drop_last().len() && headers.drop_last()[w] == k;
                assert(headers[w] == k);
                assert(seq_has(headers, k));
            }
        }
    }
}

/// The name-to-position map a header list induces: each name present maps to
/// its last position.
pub open spec fn header_map_spec(headers: Seq<Seq<char>>) -> Map<Seq<char>, usize> {
    Map::new(|k: Seq<char>| seq_has(headers, k), |k: Seq<char>| last_pos(headers, k) as usize)
}

/// Builds the name-to-position map of a header list; with repeated names the
/// last position wins.
pub fn build_header_map(headers: &Vec<String>) -> (r: vstd::hash_map::StringHashMap<usize>)
    ensures
        r@ == header_map_spec(headers.deep_view()),
        forall|k: Seq<char>| r@.contains_key(k) <==> seq_has(headers.deep_view(), k),
        forall|k: Seq<char>|
            #[trigger] r@.contains_key(k) ==> (r@[k] as int) < headers.deep_view().len()
                && headers.deep_view()[r@[k] as int] == k,
{
    let mut r = vstd::hash_map::StringHashMap::<usize>::new();
    let mut i: usize = 0;
    while i < headers.len()
        invariant
            i <= headers.len(),
            headers.deep_view().len() == headers@.len(),
            forall|k: int| 0 <= k < headers@.len() ==> headers.deep_view()[k] == headers@[k]@,
            forall|k: Seq<char>|
                r@.contains_key(k) <==> seq_has(headers.deep_view().take(i as int), k),
            forall|k: Seq<char>|
                #[trigger] r@.contains_key(k) ==> (r@[k] as int) < i
                    && headers.deep_view()[r@[k] as int] == k && (r@[k] as int) == last_pos(
                    headers.deep_view().take(i as int),
                    k,
                ),
        decreases headers.len() - i,
    {
        r.insert(headers[i].clone(), i);
        proof {
            let hv = headers.deep_view();
            assert(hv.take(i as int + 1).drop_last() =~= hv.take(i as int));
            assert(hv.take(i as int + 1).last() == hv[i as int]);
            assert forall|k: Seq<char>| #[trigger] r@.contains_key(k) implies (r@[k] as int)
                == last_pos(hv.take(i as int + 1), k) by {
                if k == hv[i as int] {
                    assert(last_pos(hv.take(i as int + 1), k) == i);
                } else {
                    assert(last_pos(hv.take(i as int + 1), k) == last_pos(hv.take(i as int), k));
                }
            }
            assert forall|k: Seq<char>| r@.contains_key(k) implies seq_has(
                hv.take(i as int + 1),
                k,
            ) by {
                if k == hv[i as int] {
                    assert(hv.take(i as int + 1)[i as int] == k);
                } else {
                    assert(seq_has(hv.take(i as int), k));
                    let w = choose|w: int| 0 <= w < hv.take(i as int).len() && hv.take(i as int)[w]
                        == k;
                    assert(hv.take(i as int + 1)[w] == k);
                }
            }
            assert forall|k: Seq<char>| seq_has(hv.take(i as int + 1), k) implies r@.contains_key(
                k,
            ) by {
                let w = choose|w: int|
                    0 <= w < hv.take(i as int + 1).len() && #[trigger] hv.take(i as int + 1)[w]
                        == k;
                if w < i as int {
                    assert(hv.take(i as int)[w] == k);
                    assert(seq_has(hv.take(i as int), k));
                }
            }
        }
        i = i + 1;
    }
    proof {
        let hv = headers.deep_view();
        assert(hv.take(headers@.len() as int) =~= hv);
        assert forall|k: Seq<char>| true implies r@.contains_key(k) == header_map_spec(
            hv,
        ).contains_key(k) && (r@.contains_key(k) ==> r@[k] == header_map_spec(hv)[k]) by {
            lemma_last_pos(hv, k);
        }
        assert(r@ =~= header_map_spec(hv));
    }
    r
}

/// Copies a row of cells.
pub(crate) fn clone_string_vec(v: &Vec<String>) -> (r: Vec<String>)
    ensures
        r.deep_view() == v.deep_view(),
{
    let mut r: Vec<String> = Vec::new();
    let mut i: usize = 0;
    while i < v.len()
        invariant
            i <= v.len(),
            r@.len() == i,
            forall|k: int| 0 <= k < i ==> r.deep_view()[k] == v.deep_view()[k],
        decreases v.len() - i,
    {
        r.push(v[i].clone());
        i = i + 1;
    }
    proof {
        assert(r.deep_view() =~= v.deep_view());
    }
    r
}

fn row_is_all_digits(row: &Vec<String>) -> (r: bool)
    ensures
        r == forall|i: int| 0 <= i < row.deep_view().len() ==> all_digits(#[trigger] row.deep_view()[i]),
{
    let mut i: usize = 0;
    while i < row.len()
        invariant
            i <= row.len(),
            row.deep_view().len() == row@.len(),
            forall|k: int| 0 <= k < row@.len() ==> row.deep_view()[k] == row@[k]@,
            forall|k: int| 0 <= k < i ==> all_digits(#[trigger] row.deep_view()[k]),
        decreases row.len() - i,
    {
        let cv = chars_of(row[i].as_str());
        if !chars_all_digits(&cv) {
            proof {
                assert(!all_digits(row.deep_view()[i as int]));
            }
            return false;
        }
        i = i + 1;
    }
    true
}

fn make_synth_headers(n: usize) -> (r: Vec<String>)
    ensures
        r.deep_view() == synth_headers(n as int),
{
    let mut r: Vec<String> = Vec::new();
    let mut i: usize = 0;
    while i < n
        invariant
            i <= n,
            r@.len() == i,
            forall|k: int| 0 <= k < i ==> (#[trigger] r@[k])@ == "Column"@ + dec_spec(k + 1),
        decreases n - i,
    {
        let mut s = "Column".to_owned();
        let d = dec_string(i + 1);
        s.append(d.as_str());
        r.push(s);
        i = i + 1;
    }
    proof {
        assert(r.deep_view() =~= synth_headers(n as int));
    }
    r
}

/// Reads raw text into a dataset.  With `has_headers` the first record names
/// the columns unless every one of its tokens is all digits (then the whole
/// text is data under positional headers); without it, positional headers
/// `Column1..ColumnN` are synthesized from the first record's width.  Empty
/// text yields an empty dataset.  A reader error is handed back verbatim.
pub fn parse_csv_internal(text: &str, has_headers: bool) -> (r: Result<Dataset, DiffError>)
    ensures
        r is Ok <==> csv_ok(text@),
        r is Ok ==> {
            let ds = r->Ok_0;
            &&& ds.wf()
            &&& ds.headers.deep_view() == resolved_headers(csv_table(text@), has_headers)
            &&& ds.rows.deep_view() == resolved_rows(csv_table(text@), has_headers)
            &&& ds.header_map@ == header_map_spec(ds.headers.deep_view())
        },
        text@.len() == 0 ==> r is Ok && r->Ok_0.headers@.len() == 0 && r->Ok_0.rows@.len() == 0
            && r->Ok_0.header_map@ == Map::<Seq<char>, usize>::empty(),
        r is Err ==> r->Err_0 is Parse,
{
    let table = match read_records(text) {
        Ok(t) => t,
        Err(e) => {
            let message = csv_error_message(&e);
            return Err(DiffError::Parse { message });
        },
    };
    if table.len() == 0 {
        let headers: Vec<String> = Vec::new();
        let rows: Vec<Vec<String>> = Vec::new();
        let header_map = vstd::hash_map::StringHashMap::<usize>::new();
        let ds = Dataset { headers, rows, header_map };
        proof {
            assert(ds.headers.deep_view() =~= resolved_headers(csv_table(text@), has_headers));
            assert(ds.rows.deep_view() =~= resolved_rows(csv_table(text@), has_headers));
            assert(ds.header_map@ =~= header_map_spec(ds.headers.deep_view()));
        }
        return Ok(ds);
    }
    let first_is_data = table.len() >= 2 && table[0].len() == table[1].len() && row_is_all_digits(
        &table[0],
    );
    proof {
        assert(table.deep_view()[0].len() == table@[0].deep_view().len());
        assert(first_is_data == header_row_is_data(csv_table(text@)));
    }
    if has_headers && !first_is_data {
        let headers: Vec<String> = clone_string_vec(&table[0]);
        let mut rows: Vec<Vec<String>> = Vec::new();
        let mut i: usize = 1;
        while i < table.len()
            invariant
                1 <= i <= table.len(),
                table.deep_view().len() == table@.len(),
                rows@.len() == i - 1,
                forall|k: int|
                    0 <= k < i - 1 ==> (#[trigger] rows@[k]).deep_view() == table.deep_view()[k
                        + 1],
            decreases table.len() - i,
        {
            rows.push(clone_string_vec(&table[i]));
            i = i + 1;
        }
        proof {
            assert(rows.deep_view() =~= table.deep_view().subrange(1, table@.len() as int));
        }
        let header_map = build_header_map(&headers);
        let ds = Dataset { headers, rows, header_map };
        proof {
            assert(table.deep_view().subrange(1, table@.len() as int) =~= table.deep_view()
                .drop_first());
            assert(ds.headers.deep_view() == resolved_headers(csv_table(text@), has_headers));
            assert(ds.rows.deep_view() == resolved_rows(csv_table(text@), has_headers));
        }
        Ok(ds)
    } else {
        let width = table[0].len();
        let headers = make_synth_headers(width);
        let header_map = build_header_map(&headers);
        let ds = Dataset { headers, rows: table, header_map };
        proof {
            assert(ds.headers.deep_view() == resolved_headers(csv_table(text@), has_headers));
            assert(ds.rows.deep_view() == resolved_rows(csv_table(text@), has_headers));
        }
        Ok(ds)
    }
}

} // verus!
