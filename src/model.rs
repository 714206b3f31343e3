//! The dataset's data types and their mathematical views.

use core::ops::Range;
use vstd::prelude::*;

verus! {

/// The view of a search result: a path and a half-open line range.
pub struct SearchResultModel {
    pub file: Seq<char>,
    pub start: u32,
    pub end: u32,
}

/// The view of a query: its text and the expected results, in order.
pub struct QueryModel {
    pub query: Seq<char>,
    pub expected: Seq<SearchResultModel>,
}

/// The view of a project: repository, revision and queries, in order.
pub struct ProjectModel {
    pub repo: Seq<char>,
    pub sha: Seq<char>,
    pub queries: Seq<QueryModel>,
}

/// The view of one decoded annotation row.
pub struct RowModel {
    pub repo: Seq<char>,
    pub sha: Seq<char>,
    pub query: Seq<char>,
    pub file: Seq<char>,
    pub start: u32,
    pub end: u32,
}

/// A repository-relative file path with a half-open line range.
pub struct EvaluationSearchResult {
    pub file: String,
    pub lines: Range<u32>,
}

impl View for EvaluationSearchResult {
    type V = SearchResultModel;

    open spec fn view(&self) -> SearchResultModel {
        SearchResultModel { file: self.file@, start: self.lines.start, end: self.lines.end }
    }
}

/// A natural-language query with the results judged relevant to it.
pub struct EvaluationQuery {
    pub query: String,
    pub expected_results: Vec<EvaluationSearchResult>,
}

pub open spec fn results_view(v: Seq<EvaluationSearchResult>) -> Seq<SearchResultModel> {
    v.map_values(|r: EvaluationSearchResult| r@)
}

impl View for EvaluationQuery {
    type V = QueryModel;

    open spec fn view(&self) -> QueryModel {
        QueryModel { query: self.query@, expected: results_view(self.expected_results@) }
    }
}

/// A repository pinned at a revision, with its queries.
pub struct EvaluationProject {
    pub repo: String,
    pub sha: String,
    pub queries: Vec<EvaluationQuery>,
}

pub open spec fn queries_view(v: Seq<EvaluationQuery>) -> Seq<QueryModel> {
    v.map_values(|q: EvaluationQuery| q@)
}

pub open spec fn projects_view(v: Seq<EvaluationProject>) -> Seq<ProjectModel> {
    v.map_values(|p: EvaluationProject| p@)
}

impl View for EvaluationProject {
    type V = ProjectModel;

    open spec fn view(&self) -> ProjectModel {
        ProjectModel { repo: self.repo@, sha: self.sha@, queries: queries_view(self.queries@) }
    }
}

/// One decoded annotation: where the relevant code lives and for which query.
pub struct AnnotationRow {
    pub repo: String,
    pub sha: String,
    pub query: String,
    pub file: String,
    pub lines: Range<u32>,
}

impl View for AnnotationRow {
    type V = RowModel;

    open spec fn view(&self) -> RowModel {
        RowModel {
            repo: self.repo@,
            sha: self.sha@,
            query: self.query@,
            file: self.file@,
            start: self.lines.start,
            end: self.lines.end,
        }
    }
}

pub open spec fn rows_view(v: Seq<AnnotationRow>) -> Seq<RowModel> {
    v.map_values(|r: AnnotationRow| r@)
}

/// What one query produced in a run: the expected and the actual results and
/// how many of the expected ones the actual ones cover.
pub struct EvaluationQueryOutcome {
    pub query: String,
    pub expected_results: Vec<EvaluationSearchResult>,
    pub actual_results: Vec<EvaluationSearchResult>,
    pub covered_result_count: usize,
    pub total_result_count: usize,
}

} // verus!
