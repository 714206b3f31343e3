//! Coverage of the expected results of a query by the results a search returned.

use vstd::prelude::*;
use crate::model::{EvaluationQuery, EvaluationQueryOutcome, EvaluationSearchResult, SearchResultModel, results_view};

verus! {

/// A line lies in the half-open range `[start, end)`.
pub open spec fn in_range(line: u32, start: u32, end: u32) -> bool {
    start <= line && line < end
}

/// An actual result covers an expected one when the paths are equal and the
/// actual range holds both ends of the expected range.
pub open spec fn covers(actual: SearchResultModel, expected: SearchResultModel) -> bool {
    actual.file == expected.file && in_range(expected.start, actual.start, actual.end) && in_range(
        expected.end,
        actual.start,
        actual.end,
    )
}

/// Some actual result covers `expected`.
pub open spec fn is_covered_by(actual: Seq<SearchResultModel>, expected: SearchResultModel) -> bool {
    exists|i: int| 0 <= i < actual.len() && covers(#[trigger] actual[i], expected)
}

/// How many of the expected results some actual result covers.
pub open spec fn covered_count(expected: Seq<SearchResultModel>, actual: Seq<SearchResultModel>) -> nat
    decreases expected.len(),
{
    if expected.len() == 0 {
        0
    } else {
        covered_count(expected.drop_last(), actual) + if is_covered_by(actual, expected.last()) {
            1nat
        } else {
            0nat
        }
    }
}

/// Tells whether `actual` covers `expected`.
pub fn result_covers(actual: &EvaluationSearchResult, expected: &EvaluationSearchResult) -> (r: bool)
    ensures
        r == covers(actual@, expected@),
{
    actual.file == expected.file && actual.lines.start <= expected.lines.start && expected.lines.start
        < actual.lines.end && actual.lines.start <= expected.lines.end && expected.lines.end
        < actual.lines.end
}

/// Tells whether some result of `actual` covers `expected`.
pub fn is_covered(actual: &Vec<EvaluationSearchResult>, expected: &EvaluationSearchResult) -> (r: bool)
    ensures
        r == is_covered_by(results_view(actual@), expected@),
{
    let mut i: usize = 0;
    while i < actual.len()
        invariant
            i <= actual.len(),
            forall|j: int| 0 <= j < i ==> !covers(#[trigger] results_view(actual@)[j], expected@),
        decreases actual.len() - i,
    {
        assert(results_view(actual@)[i as int] == actual@[i as int]@);
        if result_covers(&actual[i], expected) {
            return true;
        }
        i = i + 1;
    }
    false
}

/// Counts the expected results that some actual result covers.
pub fn count_covered(expected: &Vec<EvaluationSearchResult>, actual: &Vec<EvaluationSearchResult>) -> (r: usize)
    ensures
        r == covered_count(results_view(expected@), results_view(actual@)),
        r <= expected.len(),
{
    let mut n: usize = 0;
    let mut k: usize = 0;
    while k < expected.len()
        invariant
            k <= expected.len(),
            n <= k,
            n == covered_count(results_view(expected@).subrange(0, k as int), results_view(actual@)),
        decreases expected.len() - k,
    {
        let ghost pre = results_view(expected@).subrange(0, k + 1);
        assert(pre.drop_last() =~= results_view(expected@).subrange(0, k as int));
        assert(pre.last() == expected@[k as int]@);
        if is_covered(actual, &expected[k]) {
            n = n + 1;
        }
        k = k + 1;
    }
    assert(results_view(expected@).subrange(0, expected.len() as int) =~= results_view(expected@));
    n
}

/// Scores one query against the results a search returned for it.
pub fn score_query(query: EvaluationQuery, actual: Vec<EvaluationSearchResult>) -> (r: EvaluationQueryOutcome)
    ensures
        r.query@ == query.query@,
        results_view(r.expected_results@) == query@.expected,
        results_view(r.actual_results@) == results_view(actual@),
        r.covered_result_count == covered_count(query@.expected, results_view(actual@)),
        r.total_result_count == query.expected_results.len(),
        r.covered_result_count <= r.total_result_count,
{
    let covered = count_covered(&query.expected_results, &actual);
    let total = query.expected_results.len();
    EvaluationQueryOutcome {
        query: query.query,
        expected_results: query.expected_results,
        actual_results: actual,
        covered_result_count: covered,
        total_result_count: total,
    }
}

} // verus!
