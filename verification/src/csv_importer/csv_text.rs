//! Splitting the text of a CSV export into records with the `csv` crate, and
//! the two ways the importers treat a record that cannot be read: stop at it,
//! or skip it.

use vstd::prelude::*;
use crate::journal::account::string_views;
use super::generic_importer::record_views;

verus! {

/// What `csv::ReaderBuilder`, set to this delimiter, header flag and
/// flexibility, yields for `text` through `records()`: each record as its
/// fields, or the text of the record's error.
pub uninterp spec fn csv_parse(text: Seq<u8>, delimiter: u8, has_headers: bool, flexible: bool) -> Seq<Result<Seq<Seq<char>>, Seq<char>>>;

/// A record read, as the contracts see it.
pub open spec fn record_result_view(x: Result<Vec<String>, String>) -> Result<Seq<Seq<char>>, Seq<char>> {
    match x {
        Ok(v) => Ok(string_views(v@)),
        Err(e) => Err(e@),
    }
}

pub open spec fn record_results_view(v: Seq<Result<Vec<String>, String>>) -> Seq<Result<Seq<Seq<char>>, Seq<char>>> {
    v.map_values(|x: Result<Vec<String>, String>| record_result_view(x))
}

/// Reads `text` with `csv::ReaderBuilder` (the given delimiter, header flag
/// and flexibility) and lists what `records()` yields, each record's fields
/// as strings and each error by its `Display` text. The list is named by
/// `csv_parse`; what the reader makes of a given text is not stated here.
#[verifier::external_body]
pub(crate) fn csv_records(text: &[u8], delimiter: u8, has_headers: bool, flexible: bool) -> (r: Vec<Result<Vec<String>, String>>)
    ensures
        record_results_view(r@) == csv_parse(text@, delimiter, has_headers, flexible),
{
    let mut out = Vec::new();
    let mut reader = csv::ReaderBuilder::new().delimiter(delimiter).has_headers(has_headers).flexible(flexible).from_reader(text);
    for result in reader.records() {
        out.push(match result {
            Ok(record) => Ok(record.iter().map(String::from).collect()),
            Err(e) => Err(e.to_string()),
        });
    }
    out
}

/// The index of the first record from `i` on that cannot be read, or the
/// number of records.
pub open spec fn first_error_from(results: Seq<Result<Seq<Seq<char>>, Seq<char>>>, i: int) -> int
    decreases results.len() - i,
{
    if i < 0 || i >= results.len() {
        results.len() as int
    } else if results[i] is Err {
        i
    } else {
        first_error_from(results, i + 1)
    }
}

/// The records before the first one that cannot be read.
pub open spec fn records_before_error(results: Seq<Result<Seq<Seq<char>>, Seq<char>>>) -> Seq<Seq<Seq<char>>> {
    results.take(first_error_from(results, 0)).map_values(|x: Result<Seq<Seq<char>>, Seq<char>>| x->Ok_0)
}

/// The error of the first record that cannot be read, if any.
pub open spec fn first_csv_error(results: Seq<Result<Seq<Seq<char>>, Seq<char>>>) -> Option<Seq<char>> {
    let k = first_error_from(results, 0);
    if k < results.len() { Some(results[k]->Err_0) } else { None }
}

/// The records that can be read among the first `n`, in order.
pub open spec fn readable_records(results: Seq<Result<Seq<Seq<char>>, Seq<char>>>, n: int) -> Seq<Seq<Seq<char>>>
    decreases n,
{
    if n <= 0 || n > results.len() {
        Seq::empty()
    } else {
        let prev = readable_records(results, n - 1);
        match results[n - 1] {
            Ok(r) => prev.push(r),
            Err(_) => prev,
        }
    }
}

proof fn lemma_first_error_from(results: Seq<Result<Seq<Seq<char>>, Seq<char>>>, i: int)
    requires
        0 <= i <= results.len(),
        forall|k: int| 0 <= k < i ==> results[k] is Ok,
    ensures
        i <= first_error_from(results, i) <= results.len(),
        first_error_from(results, i) == first_error_from(results, 0),
        forall|k: int| 0 <= k < first_error_from(results, 0) ==> results[k] is Ok,
        first_error_from(results, 0) < results.len() ==> results[first_error_from(results, 0)] is Err,
    decreases i,
{
    if i > 0 {
        lemma_first_error_from(results, i - 1);
    }
    lemma_first_error_from_up(results, i);
}

proof fn lemma_first_error_from_up(results: Seq<Result<Seq<Seq<char>>, Seq<char>>>, i: int)
    requires
        0 <= i <= results.len(),
    ensures
        i <= first_error_from(results, i) <= results.len(),
        forall|k: int| i <= k < first_error_from(results, i) ==> results[k] is Ok,
        first_error_from(results, i) < results.len() ==> results[first_error_from(results, i)] is Err,
    decreases results.len() - i,
{
    if i < results.len() && results[i] is Ok {
        lemma_first_error_from_up(results, i + 1);
    }
}

/// The records up to the first that cannot be read, and that record's error.
pub fn records_until_error(results: Vec<Result<Vec<String>, String>>) -> (r: (Vec<Vec<String>>, Option<String>))
    ensures
        record_views(r.0@) == records_before_error(record_results_view(results@)),
        match first_csv_error(record_results_view(results@)) {
            Some(e) => r.1 matches Some(x) && x@ == e,
            None => r.1 is None,
        },
{
    let ghost rv = record_results_view(results@);
    let mut out: Vec<Vec<String>> = Vec::new();
    let mut rest = results;
    let n = rest.len();
    let mut i: usize = 0;
    while i < n
        invariant
            i <= n,
            n == rv.len(),
            rv == record_results_view(results@),
            record_results_view(rest@) == rv.skip(i as int),
            forall|k: int| 0 <= k < i ==> rv[k] is Ok,
            record_views(out@) == rv.take(i as int).map_values(|x: Result<Seq<Seq<char>>, Seq<char>>| x->Ok_0),
        decreases n - i,
    {
        assert(record_results_view(rest@).len() == rest@.len());
        assert(record_results_view(rest@)[0] == record_result_view(rest@[0]));
        let x = rest.remove(0);
        assert(rv.skip(i + 1) =~= rv.skip(i as int).drop_first());
        assert(rv[i as int] == record_result_view(x));
        match x {
            Ok(rec) => {
                let ghost old_out = out@;
                out.push(rec);
                assert(record_views(out@) =~= record_views(old_out).push(string_views(out@.last()@)));
                assert(rv.take(i + 1).map_values(|x: Result<Seq<Seq<char>>, Seq<char>>| x->Ok_0)
                    =~= rv.take(i as int).map_values(|x: Result<Seq<Seq<char>>, Seq<char>>| x->Ok_0).push(rv[i as int]->Ok_0));
            },
            Err(e) => {
                proof {
                    lemma_first_error_from(rv, i as int);
                    assert(first_error_from(rv, i as int) == i);
                }
                return (out, Some(e));
            },
        }
        i = i + 1;
    }
    proof {
        lemma_first_error_from(rv, i as int);
        assert(first_error_from(rv, i as int) == i);
    }
    (out, None)
}

/// The records that can be read, in order; the others are left out.
pub fn readable_records_of(results: Vec<Result<Vec<String>, String>>) -> (r: Vec<Vec<String>>)
    ensures
        record_views(r@) == readable_records(record_results_view(results@), results@.len() as int),
{
    let ghost rv = record_results_view(results@);
    let mut out: Vec<Vec<String>> = Vec::new();
    let mut rest = results;
    let n = rest.len();
    let mut i: usize = 0;
    while i < n
        invariant
            i <= n,
            n == rv.len(),
            rv == record_results_view(results@),
            record_results_view(rest@) == rv.skip(i as int),
            record_views(out@) == readable_records(rv, i as int),
        decreases n - i,
    {
        assert(record_results_view(rest@).len() == rest@.len());
        assert(record_results_view(rest@)[0] == record_result_view(rest@[0]));
        let x = rest.remove(0);
        assert(rv.skip(i + 1) =~= rv.skip(i as int).drop_first());
        assert(rv[i as int] == record_result_view(x));
        match x {
            Ok(rec) => {
                let ghost old_out = out@;
                out.push(rec);
                assert(record_views(out@) =~= record_views(old_out).push(string_views(out@.last()@)));
            },
            Err(_) => {},
        }
        i = i + 1;
    }
    out
}

} // verus!
