//! Folding decoded annotation rows into the nested, deduplicated dataset.

use core::ops::Range;
use vstd::prelude::*;
use crate::model::{
    AnnotationRow, EvaluationProject, EvaluationQuery, EvaluationSearchResult, ProjectModel,
    QueryModel, RowModel, SearchResultModel, projects_view, queries_view, results_view, rows_view,
};

verus! {

/// The expected result that a row contributes.
pub open spec fn result_of_row(row: RowModel) -> SearchResultModel {
    SearchResultModel { file: row.file, start: row.start, end: row.end }
}

/// The first index at or after `i` of a project with the key `(repo, sha)`, or -1.
pub open spec fn project_index_from(ps: Seq<ProjectModel>, repo: Seq<char>, sha: Seq<char>, i: int) -> int
    decreases ps.len() - i,
{
    if i < 0 || i >= ps.len() {
        -1
    } else if ps[i].repo == repo && ps[i].sha == sha {
        i
    } else {
        project_index_from(ps, repo, sha, i + 1)
    }
}

/// The first index at or after `i` of a query with the text `text`, or -1.
pub open spec fn query_index_from(qs: Seq<QueryModel>, text: Seq<char>, i: int) -> int
    decreases qs.len() - i,
{
    if i < 0 || i >= qs.len() {
        -1
    } else if qs[i].query == text {
        i
    } else {
        query_index_from(qs, text, i + 1)
    }
}

/// A query with `r` appended to its expected results, unless an equal one is there.
pub open spec fn add_result(q: QueryModel, r: SearchResultModel) -> QueryModel {
    if q.expected.contains(r) {
        q
    } else {
        QueryModel { query: q.query, expected: q.expected.push(r) }
    }
}

/// A project after one row: its query found or appended, then the result merged in.
pub open spec fn add_to_project(p: ProjectModel, row: RowModel) -> ProjectModel {
    let i = query_index_from(p.queries, row.query, 0);
    let qs = if i < 0 {
        p.queries.push(QueryModel { query: row.query, expected: Seq::empty() })
    } else {
        p.queries
    };
    let j = if i < 0 { p.queries.len() as int } else { i };
    ProjectModel { repo: p.repo, sha: p.sha, queries: qs.update(j, add_result(qs[j], result_of_row(row))) }
}

/// The dataset after one row: its project found or appended, then the row merged in.
pub open spec fn add_row(ps: Seq<ProjectModel>, row: RowModel) -> Seq<ProjectModel> {
    let i = project_index_from(ps, row.repo, row.sha, 0);
    let qs = if i < 0 {
        ps.push(ProjectModel { repo: row.repo, sha: row.sha, queries: Seq::empty() })
    } else {
        ps
    };
    let j = if i < 0 { ps.len() as int } else { i };
    qs.update(j, add_to_project(qs[j], row))
}

/// The dataset that a sequence of rows folds into, in order of first occurrence.
pub open spec fn build_spec(rows: Seq<RowModel>) -> Seq<ProjectModel>
    decreases rows.len(),
{
    if rows.len() == 0 {
        Seq::empty()
    } else {
        add_row(build_spec(rows.drop_last()), rows.last())
    }
}

fn copy_string(s: &String) -> (r: String)
    ensures
        r@ == s@,
{
    s.clone()
}

fn find_project(ps: &Vec<EvaluationProject>, repo: &String, sha: &String) -> (r: Option<usize>)
    ensures
        match r {
            Some(i) => i < ps@.len() && project_index_from(projects_view(ps@), repo@, sha@, 0) == i as int,
            None => project_index_from(projects_view(ps@), repo@, sha@, 0) == -1,
        },
{
    let mut i: usize = 0;
    while i < ps.len()
        invariant
            i <= ps.len(),
            project_index_from(projects_view(ps@), repo@, sha@, 0)
                == project_index_from(projects_view(ps@), repo@, sha@, i as int),
        decreases ps.len() - i,
    {
        if ps[i].repo == *repo && ps[i].sha == *sha {
            return Some(i);
        }
        i = i + 1;
    }
    None
}

fn find_query(qs: &Vec<EvaluationQuery>, text: &String) -> (r: Option<usize>)
    ensures
        match r {
            Some(i) => i < qs@.len() && query_index_from(queries_view(qs@), text@, 0) == i as int,
            None => query_index_from(queries_view(qs@), text@, 0) == -1,
        },
{
    let mut i: usize = 0;
    while i < qs.len()
        invariant
            i <= qs.len(),
            query_index_from(queries_view(qs@), text@, 0)
                == query_index_from(queries_view(qs@), text@, i as int),
        decreases qs.len() - i,
    {
        if qs[i].query == *text {
            return Some(i);
        }
        i = i + 1;
    }
    None
}

fn contains_result(rs: &Vec<EvaluationSearchResult>, file: &String, start: u32, end: u32) -> (r: bool)
    ensures
        r == results_view(rs@).contains(SearchResultModel { file: file@, start, end }),
{
    let ghost target = SearchResultModel { file: file@, start, end };
    let mut i: usize = 0;
    while i < rs.len()
        invariant
            i <= rs.len(),
            target == (SearchResultModel { file: file@, start, end }),
            forall|j: int| 0 <= j < i ==> results_view(rs@)[j] != target,
        decreases rs.len() - i,
    {
        assert(results_view(rs@)[i as int] == rs@[i as int]@);
        if rs[i].file == *file && rs[i].lines.start == start && rs[i].lines.end == end {
            return true;
        }
        i = i + 1;
    }
    false
}

/// Merges one row into a query's expected results.
fn merge_result(q: &mut EvaluationQuery, row: &AnnotationRow)
    ensures
        final(q)@ == add_result(old(q)@, result_of_row(row@)),
{
    if !contains_result(&q.expected_results, &row.file, row.lines.start, row.lines.end) {
        let r = EvaluationSearchResult {
            file: copy_string(&row.file),
            lines: Range { start: row.lines.start, end: row.lines.end },
        };
        q.expected_results.push(r);
        assert(results_view(q.expected_results@) =~= results_view(old(q).expected_results@).push(
            result_of_row(row@),
        ));
    }
}

/// Merges one row into a project: finds or appends its query, then merges the result.
fn merge_into_project(p: &mut EvaluationProject, row: &AnnotationRow)
    ensures
        final(p)@ == add_to_project(old(p)@, row@),
{
    let found = find_query(&p.queries, &row.query);
    let j: usize = match found {
        Some(j) => j,
        None => {
            p.queries.push(EvaluationQuery { query: copy_string(&row.query), expected_results: Vec::new() });
            assert(results_view(Seq::<EvaluationSearchResult>::empty()) =~= Seq::empty());
            assert(queries_view(p.queries@) =~= queries_view(old(p).queries@).push(
                QueryModel { query: row.query@, expected: Seq::empty() },
            ));
            p.queries.len() - 1
        },
    };
    let ghost mid = queries_view(p.queries@);
    let mut q = EvaluationQuery { query: String::new(), expected_results: Vec::new() };
    p.queries.set_and_swap(j, &mut q);
    merge_result(&mut q, row);
    p.queries.set(j, q);
    assert(queries_view(p.queries@) =~= mid.update(j as int, add_result(mid[j as int], result_of_row(row@))));
}

/// Folds decoded rows into the dataset: one project per `(repo, sha)` in order of
/// first occurrence, one query per text within a project, and each distinct
/// result once within a query.
pub fn build_dataset(rows: &Vec<AnnotationRow>) -> (r: Vec<EvaluationProject>)
    ensures
        projects_view(r@) == build_spec(rows_view(rows@)),
        dataset_wf(projects_view(r@)),
{
    let mut ps: Vec<EvaluationProject> = Vec::new();
    let mut k: usize = 0;
    while k < rows.len()
        invariant
            k <= rows.len(),
            projects_view(ps@) == build_spec(rows_view(rows@).subrange(0, k as int)),
        decreases rows.len() - k,
    {
        let row = &rows[k];
        let ghost before = projects_view(ps@);
        let found = find_project(&ps, &row.repo, &row.sha);
        let i: usize = match found {
            Some(i) => i,
            None => {
                ps.push(EvaluationProject { repo: copy_string(&row.repo), sha: copy_string(&row.sha), queries: Vec::new() });
                assert(queries_view(Seq::<EvaluationQuery>::empty()) =~= Seq::empty());
                assert(projects_view(ps@) =~= before.push(
                    ProjectModel { repo: row.repo@, sha: row.sha@, queries: Seq::empty() },
                ));
                ps.len() - 1
            },
        };
        let ghost mid = projects_view(ps@);
        let mut p = EvaluationProject { repo: String::new(), sha: String::new(), queries: Vec::new() };
        ps.set_and_swap(i, &mut p);
        merge_into_project(&mut p, row);
        ps.set(i, p);
        assert(projects_view(ps@) =~= mid.update(i as int, add_to_project(mid[i as int], row@)));
        proof {
            let s = rows_view(rows@).subrange(0, k + 1);
            assert(s.drop_last() =~= rows_view(rows@).subrange(0, k as int));
            assert(s.last() == row@);
        }
        k = k + 1;
    }
    assert(rows_view(rows@).subrange(0, rows.len() as int) =~= rows_view(rows@));
    proof {
        lemma_build_well_formed(rows_view(rows@));
    }
    ps
}

/// No two expected results of a query are equal.
pub open spec fn query_wf(q: QueryModel) -> bool {
    forall|i: int, j: int| 0 <= i < j < q.expected.len() ==> q.expected[i] != q.expected[j]
}

/// No two queries of a project share a text, and each query is well formed.
pub open spec fn project_wf(p: ProjectModel) -> bool {
    &&& forall|i: int, j: int| 0 <= i < j < p.queries.len() ==> p.queries[i].query != p.queries[j].query
    &&& forall|i: int| 0 <= i < p.queries.len() ==> query_wf(#[trigger] p.queries[i])
}

/// No two projects share a `(repo, sha)` key, and each project is well formed.
pub open spec fn dataset_wf(ps: Seq<ProjectModel>) -> bool {
    &&& forall|i: int, j: int|
        0 <= i < j < ps.len() ==> !(ps[i].repo == ps[j].repo && ps[i].sha == ps[j].sha)
    &&& forall|i: int| 0 <= i < ps.len() ==> project_wf(#[trigger] ps[i])
}

proof fn lemma_project_index(ps: Seq<ProjectModel>, repo: Seq<char>, sha: Seq<char>, i: int)
    requires
        0 <= i,
    ensures
        project_index_from(ps, repo, sha, i) == -1 ==> forall|j: int|
            i <= j < ps.len() ==> !(#[trigger] ps[j].repo == repo && ps[j].sha == sha),
        project_index_from(ps, repo, sha, i) != -1 ==> i <= project_index_from(ps, repo, sha, i) < ps.len()
            && ps[project_index_from(ps, repo, sha, i)].repo == repo
            && ps[project_index_from(ps, repo, sha, i)].sha == sha,
    decreases ps.len() - i,
{
    if i < ps.len() && !(ps[i].repo == repo && ps[i].sha == sha) {
        lemma_project_index(ps, repo, sha, i + 1);
    }
}

proof fn lemma_query_index(qs: Seq<QueryModel>, text: Seq<char>, i: int)
    requires
        0 <= i,
    ensures
        query_index_from(qs, text, i) == -1 ==> forall|j: int| i <= j < qs.len() ==> #[trigger] qs[j].query != text,
        query_index_from(qs, text, i) != -1 ==> i <= query_index_from(qs, text, i) < qs.len()
            && qs[query_index_from(qs, text, i)].query == text,
    decreases qs.len() - i,
{
    if i < qs.len() && qs[i].query != text {
        lemma_query_index(qs, text, i + 1);
    }
}

proof fn lemma_add_result_wf(q: QueryModel, r: SearchResultModel)
    requires
        query_wf(q),
    ensures
        query_wf(add_result(q, r)),
        add_result(q, r).query == q.query,
{
    if !q.expected.contains(r) {
        let e = q.expected.push(r);
        assert forall|i: int, j: int| 0 <= i < j < e.len() implies e[i] != e[j] by {
            if j == e.len() - 1 {
                if e[i] == e[j] {
                    assert(q.expected[i] == r);
                }
            }
        }
    }
}

proof fn lemma_add_to_project_wf(p: ProjectModel, row: RowModel)
    requires
        project_wf(p),
    ensures
        project_wf(add_to_project(p, row)),
        add_to_project(p, row).repo == p.repo,
        add_to_project(p, row).sha == p.sha,
{
    let i = query_index_from(p.queries, row.query, 0);
    lemma_query_index(p.queries, row.query, 0);
    let qs = if i < 0 {
        p.queries.push(QueryModel { query: row.query, expected: Seq::empty() })
    } else {
        p.queries
    };
    let j = if i < 0 { p.queries.len() as int } else { i };
    assert(query_wf(qs[j]));
    lemma_add_result_wf(qs[j], result_of_row(row));
    let out = qs.update(j, add_result(qs[j], result_of_row(row)));
    assert forall|a: int, b: int| 0 <= a < b < out.len() implies out[a].query != out[b].query by {
        assert(out[a].query == qs[a].query);
        assert(out[b].query == qs[b].query);
        if i < 0 && b == qs.len() - 1 {
            assert(qs[a] == p.queries[a]);
        }
    }
    assert forall|a: int| 0 <= a < out.len() implies query_wf(#[trigger] out[a]) by {
        if a != j {
            assert(out[a] == qs[a]);
            if i < 0 {
                assert(qs[a] == p.queries[a]);
            }
        }
    }
}

proof fn lemma_add_row_wf(ps: Seq<ProjectModel>, row: RowModel)
    requires
        dataset_wf(ps),
    ensures
        dataset_wf(add_row(ps, row)),
{
    let i = project_index_from(ps, row.repo, row.sha, 0);
    lemma_project_index(ps, row.repo, row.sha, 0);
    let qs = if i < 0 {
        ps.push(ProjectModel { repo: row.repo, sha: row.sha, queries: Seq::empty() })
    } else {
        ps
    };
    let j = if i < 0 { ps.len() as int } else { i };
    assert(project_wf(qs[j]));
    lemma_add_to_project_wf(qs[j], row);
    let out = qs.update(j, add_to_project(qs[j], row));
    assert forall|a: int, b: int| 0 <= a < b < out.len() implies !(out[a].repo == out[b].repo
        && out[a].sha == out[b].sha) by {
        assert(out[a].repo == qs[a].repo && out[a].sha == qs[a].sha);
        assert(out[b].repo == qs[b].repo && out[b].sha == qs[b].sha);
        if i < 0 && b == qs.len() - 1 {
            assert(qs[a] == ps[a]);
        }
    }
    assert forall|a: int| 0 <= a < out.len() implies project_wf(#[trigger] out[a]) by {
        if a != j {
            assert(out[a] == qs[a]);
            if i < 0 {
                assert(qs[a] == ps[a]);
            }
        }
    }
}

/// A built dataset holds each `(repo, sha)` key once, each query text once
/// within a project, and each expected result once within a query.
pub proof fn lemma_build_well_formed(rows: Seq<RowModel>)
    ensures
        dataset_wf(build_spec(rows)),
    decreases rows.len(),
{
    if rows.len() > 0 {
        lemma_build_well_formed(rows.drop_last());
        lemma_add_row_wf(build_spec(rows.drop_last()), rows.last());
    }
}

/// A project has a query with text `t` whose expected results hold `x`.
pub open spec fn project_has(p: ProjectModel, t: Seq<char>, x: SearchResultModel) -> bool {
    exists|b: int, c: int|
        0 <= b < p.queries.len() && 0 <= c < p.queries[b].expected.len() && #[trigger] p.queries[b].query == t
            && #[trigger] p.queries[b].expected[c] == x
}

/// The dataset has, under the key `(repo, sha)` and the query `t`, the expected result `x`.
pub open spec fn dataset_has(
    ps: Seq<ProjectModel>,
    repo: Seq<char>,
    sha: Seq<char>,
    t: Seq<char>,
    x: SearchResultModel,
) -> bool {
    exists|a: int| 0 <= a < ps.len() && ps[a].repo == repo && ps[a].sha == sha && #[trigger] project_has(ps[a], t, x)
}

/// The dataset has a project with the key `(repo, sha)`.
pub open spec fn dataset_has_project(ps: Seq<ProjectModel>, repo: Seq<char>, sha: Seq<char>) -> bool {
    exists|a: int| 0 <= a < ps.len() && #[trigger] ps[a].repo == repo && ps[a].sha == sha
}

/// A row stands for the expected result `x` of query `t` under `(repo, sha)`.
pub open spec fn row_gives(row: RowModel, repo: Seq<char>, sha: Seq<char>, t: Seq<char>, x: SearchResultModel) -> bool {
    row.repo == repo && row.sha == sha && row.query == t && result_of_row(row) == x
}

proof fn lemma_add_to_project_has(p: ProjectModel, row: RowModel, t: Seq<char>, x: SearchResultModel)
    ensures
        project_has(add_to_project(p, row), t, x) <==> (project_has(p, t, x) || (t == row.query && x
            == result_of_row(row))),
        add_to_project(p, row).repo == p.repo,
        add_to_project(p, row).sha == p.sha,
{
    let r = result_of_row(row);
    let i = query_index_from(p.queries, row.query, 0);
    lemma_query_index(p.queries, row.query, 0);
    let qs = if i < 0 {
        p.queries.push(QueryModel { query: row.query, expected: Seq::empty() })
    } else {
        p.queries
    };
    let j = if i < 0 { p.queries.len() as int } else { i };
    let nq = add_result(qs[j], r);
    let out = qs.update(j, nq);
    let np = add_to_project(p, row);
    assert(np.queries == out);
    assert(qs[j].query == row.query);
    assert(nq.query == row.query);
    assert(nq.expected.contains(r)) by {
        if !qs[j].expected.contains(r) {
            assert(nq.expected[nq.expected.len() - 1] == r);
        }
    }
    if project_has(np, t, x) {
        let (b, c) = choose|b: int, c: int|
            0 <= b < np.queries.len() && 0 <= c < np.queries[b].expected.len() && #[trigger] np.queries[b].query
                == t && #[trigger] np.queries[b].expected[c] == x;
        if b != j {
            assert(out[b] == qs[b]);
            assert(qs[b] == p.queries[b]);
            assert(project_has(p, t, x));
        } else {
            if qs[j].expected.contains(x) {
                let c2 = choose|c2: int| 0 <= c2 < qs[j].expected.len() && qs[j].expected[c2] == x;
                assert(i >= 0);
                assert(p.queries[j].expected[c2] == x);
                assert(project_has(p, t, x));
            } else {
                assert(nq.expected == qs[j].expected.push(r));
                assert(x == r);
            }
        }
    }
    if project_has(p, t, x) {
        let (b, c) = choose|b: int, c: int|
            0 <= b < p.queries.len() && 0 <= c < p.queries[b].expected.len() && #[trigger] p.queries[b].query
                == t && #[trigger] p.queries[b].expected[c] == x;
        assert(qs[b] == p.queries[b]);
        if b != j {
            assert(out[b] == qs[b]);
            assert(np.queries[b].expected[c] == x);
        } else {
            assert(qs[j].expected.contains(x));
            assert(nq.expected.contains(x)) by {
                if !qs[j].expected.contains(r) {
                    assert(nq.expected[c] == x);
                }
            }
            let c2 = choose|c2: int| 0 <= c2 < nq.expected.len() && nq.expected[c2] == x;
            assert(np.queries[j].expected[c2] == x);
        }
        assert(project_has(np, t, x));
    }
    if t == row.query && x == r {
        let c2 = choose|c2: int| 0 <= c2 < nq.expected.len() && nq.expected[c2] == r;
        assert(np.queries[j].expected[c2] == x);
        assert(project_has(np, t, x));
    }
}

proof fn lemma_add_row_has(
    ps: Seq<ProjectModel>,
    row: RowModel,
    repo: Seq<char>,
    sha: Seq<char>,
    t: Seq<char>,
    x: SearchResultModel,
)
    ensures
        dataset_has(add_row(ps, row), repo, sha, t, x) <==> (dataset_has(ps, repo, sha, t, x) || row_gives(
            row,
            repo,
            sha,
            t,
            x,
        )),
        dataset_has_project(add_row(ps, row), repo, sha) <==> (dataset_has_project(ps, repo, sha) || (row.repo
            == repo && row.sha == sha)),
{
    let i = project_index_from(ps, row.repo, row.sha, 0);
    lemma_project_index(ps, row.repo, row.sha, 0);
    let empty = ProjectModel { repo: row.repo, sha: row.sha, queries: Seq::empty() };
    let qs = if i < 0 { ps.push(empty) } else { ps };
    let j = if i < 0 { ps.len() as int } else { i };
    let np = add_to_project(qs[j], row);
    let out = qs.update(j, np);
    assert(out == add_row(ps, row));
    lemma_add_to_project_has(qs[j], row, t, x);
    assert(qs[j].repo == row.repo && qs[j].sha == row.sha);
    assert(!project_has(empty, t, x));
    if dataset_has(out, repo, sha, t, x) {
        let a = choose|a: int| 0 <= a < out.len() && out[a].repo == repo && out[a].sha == sha && #[trigger] project_has(out[a], t, x);
        if a != j {
            assert(out[a] == ps[a]);
        } else if project_has(qs[j], t, x) {
            assert(i >= 0);
            assert(ps[j] == qs[j]);
        }
    }
    if dataset_has(ps, repo, sha, t, x) {
        let a = choose|a: int| 0 <= a < ps.len() && ps[a].repo == repo && ps[a].sha == sha && #[trigger] project_has(ps[a], t, x);
        assert(qs[a] == ps[a]);
        if a != j {
            assert(out[a] == ps[a]);
        }
        assert(project_has(out[a], t, x));
    }
    if row_gives(row, repo, sha, t, x) {
        assert(project_has(out[j], t, x));
    }
    if dataset_has_project(out, repo, sha) {
        let a = choose|a: int| 0 <= a < out.len() && #[trigger] out[a].repo == repo && out[a].sha == sha;
        if a != j {
            assert(out[a] == ps[a]);
        }
    }
    if dataset_has_project(ps, repo, sha) {
        let a = choose|a: int| 0 <= a < ps.len() && #[trigger] ps[a].repo == repo && ps[a].sha == sha;
        assert(qs[a] == ps[a]);
        assert(out[a].repo == repo);
    }
    if row.repo == repo && row.sha == sha {
        assert(out[j].repo == repo);
    }
}

/// The built dataset holds an expected result under a key and a query exactly
/// when some row gives it, and a project exactly when some row has its key.
pub proof fn lemma_build_contents(rows: Seq<RowModel>, repo: Seq<char>, sha: Seq<char>, t: Seq<char>, x: SearchResultModel)
    ensures
        dataset_has(build_spec(rows), repo, sha, t, x) <==> exists|k: int|
            0 <= k < rows.len() && #[trigger] row_gives(rows[k], repo, sha, t, x),
        dataset_has_project(build_spec(rows), repo, sha) <==> exists|k: int|
            0 <= k < rows.len() && #[trigger] rows[k].repo == repo && rows[k].sha == sha,
    decreases rows.len(),
{
    if rows.len() > 0 {
        let pre = rows.drop_last();
        lemma_build_contents(pre, repo, sha, t, x);
        lemma_add_row_has(build_spec(pre), rows.last(), repo, sha, t, x);
        if exists|k: int| 0 <= k < pre.len() && #[trigger] row_gives(pre[k], repo, sha, t, x) {
            let k = choose|k: int| 0 <= k < pre.len() && #[trigger] row_gives(pre[k], repo, sha, t, x);
            assert(rows[k] == pre[k]);
        }
        if exists|k: int| 0 <= k < rows.len() && #[trigger] row_gives(rows[k], repo, sha, t, x) {
            let k = choose|k: int| 0 <= k < rows.len() && #[trigger] row_gives(rows[k], repo, sha, t, x);
            if k < rows.len() - 1 {
                assert(pre[k] == rows[k]);
            }
        }
        if exists|k: int| 0 <= k < pre.len() && #[trigger] pre[k].repo == repo && pre[k].sha == sha {
            let k = choose|k: int| 0 <= k < pre.len() && #[trigger] pre[k].repo == repo && pre[k].sha == sha;
            assert(rows[k] == pre[k]);
        }
        if exists|k: int| 0 <= k < rows.len() && #[trigger] rows[k].repo == repo && rows[k].sha == sha {
            let k = choose|k: int| 0 <= k < rows.len() && #[trigger] rows[k].repo == repo && rows[k].sha == sha;
            if k < rows.len() - 1 {
                assert(pre[k] == rows[k]);
            }
        }
    }
}

/// Building is independent of the order of the rows: the same rows in any order
/// give the same projects and, under each key and query, the same set of
/// expected results.
pub proof fn lemma_build_order_independent(a: Seq<RowModel>, b: Seq<RowModel>)
    requires
        a.to_multiset() == b.to_multiset(),
    ensures
        forall|repo: Seq<char>, sha: Seq<char>|
            #[trigger] dataset_has_project(build_spec(a), repo, sha) <==> dataset_has_project(build_spec(b), repo, sha),
        forall|repo: Seq<char>, sha: Seq<char>, t: Seq<char>, x: SearchResultModel|
            #[trigger] dataset_has(build_spec(a), repo, sha, t, x) <==> dataset_has(build_spec(b), repo, sha, t, x),
{
    a.to_multiset_ensures();
    b.to_multiset_ensures();
    assert forall|repo: Seq<char>, sha: Seq<char>|
        #[trigger] dataset_has_project(build_spec(a), repo, sha) <==> dataset_has_project(build_spec(b), repo, sha) by {
        let x = SearchResultModel { file: Seq::empty(), start: 0, end: 0 };
        lemma_build_contents(a, repo, sha, Seq::empty(), x);
        lemma_build_contents(b, repo, sha, Seq::empty(), x);
        if exists|k: int| 0 <= k < a.len() && #[trigger] a[k].repo == repo && a[k].sha == sha {
            let k = choose|k: int| 0 <= k < a.len() && #[trigger] a[k].repo == repo && a[k].sha == sha;
            assert(a.contains(a[k]));
            assert(b.to_multiset().count(a[k]) > 0);
            assert(b.contains(a[k]));
        }
        if exists|k: int| 0 <= k < b.len() && #[trigger] b[k].repo == repo && b[k].sha == sha {
            let k = choose|k: int| 0 <= k < b.len() && #[trigger] b[k].repo == repo && b[k].sha == sha;
            assert(b.contains(b[k]));
            assert(a.to_multiset().count(b[k]) > 0);
            assert(a.contains(b[k]));
        }
    }
    assert forall|repo: Seq<char>, sha: Seq<char>, t: Seq<char>, x: SearchResultModel|
        #[trigger] dataset_has(build_spec(a), repo, sha, t, x) <==> dataset_has(build_spec(b), repo, sha, t, x) by {
        lemma_build_contents(a, repo, sha, t, x);
        lemma_build_contents(b, repo, sha, t, x);
        if exists|k: int| 0 <= k < a.len() && #[trigger] row_gives(a[k], repo, sha, t, x) {
            let k = choose|k: int| 0 <= k < a.len() && #[trigger] row_gives(a[k], repo, sha, t, x);
            assert(a.contains(a[k]));
            assert(b.to_multiset().count(a[k]) > 0);
            assert(b.contains(a[k]));
        }
        if exists|k: int| 0 <= k < b.len() && #[trigger] row_gives(b[k], repo, sha, t, x) {
            let k = choose|k: int| 0 <= k < b.len() && #[trigger] row_gives(b[k], repo, sha, t, x);
            assert(b.contains(b[k]));
            assert(a.to_multiset().count(b[k]) > 0);
            assert(a.contains(b[k]));
        }
    }
}

} // verus!
