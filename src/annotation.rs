//! Decoding annotation rows: comma-separated fields and GitHub permalinks.

use core::ops::Range;
use vstd::prelude::*;
use crate::model::{AnnotationRow, RowModel, rows_view};

verus! {

/// The first index at or after `i` of the character `c` in `s`, or -1.
pub open spec fn char_index_from(s: Seq<char>, c: char, i: int) -> int
    decreases s.len() - i,
{
    if i < 0 || i >= s.len() {
        -1
    } else if s[i] == c {
        i
    } else {
        char_index_from(s, c, i + 1)
    }
}

/// The first index at or after `i` where `pat` occurs in `s`, or -1.
pub open spec fn pattern_index_from(s: Seq<char>, pat: Seq<char>, i: int) -> int
    decreases s.len() - i,
{
    if i < 0 || i >= s.len() || i + pat.len() > s.len() {
        -1
    } else if s.subrange(i, i + pat.len()) == pat {
        i
    } else {
        pattern_index_from(s, pat, i + 1)
    }
}

pub open spec fn is_digit(c: char) -> bool {
    48 <= (c as u32) && (c as u32) <= 57
}

pub open spec fn digit_value(c: char) -> nat {
    ((c as u32) as int - 48) as nat
}

/// The number that a string of decimal digits denotes.
pub open spec fn digits_value(d: Seq<char>) -> nat
    decreases d.len(),
{
    if d.len() == 0 {
        0
    } else {
        digits_value(d.drop_last()) * 10 + digit_value(d.last())
    }
}

/// A number's digits: the text after an optional leading `+`.
pub open spec fn unsigned_digits(s: Seq<char>) -> Seq<char> {
    if s.len() > 0 && s[0] == '+' { s.drop_first() } else { s }
}

pub open spec fn all_digits(d: Seq<char>) -> bool {
    forall|i: int| 0 <= i < d.len() ==> is_digit(#[trigger] d[i])
}

/// A `u32` in decimal: an optional `+`, then one or more digits, in range.
pub open spec fn parse_u32_spec(s: Seq<char>) -> Option<u32> {
    let d = unsigned_digits(s);
    if d.len() > 0 && all_digits(d) && digits_value(d) <= u32::MAX {
        Some(digits_value(d) as u32)
    } else {
        None
    }
}

/// A line number written `L<n>`.
pub open spec fn line_number_spec(s: Seq<char>) -> Option<u32> {
    if s.len() > 0 && s[0] == 'L' {
        parse_u32_spec(s.drop_first())
    } else {
        None
    }
}

/// The half-open range a permalink fragment selects: `L<a>-L<b>` is `[a, b)`
/// and `L<n>` is `[n, n + 1)`.
pub open spec fn fragment_spec(f: Seq<char>) -> Option<(u32, u32)> {
    let dash = char_index_from(f, '-', 0);
    if dash >= 0 {
        match (line_number_spec(f.subrange(0, dash)), line_number_spec(f.subrange(dash + 1, f.len() as int))) {
            (Some(a), Some(b)) => Some((a, b)),
            _ => None,
        }
    } else {
        match line_number_spec(f) {
            Some(n) => if n < u32::MAX { Some((n, (n + 1) as u32)) } else { None },
            None => None,
        }
    }
}

pub open spec fn github_prefix() -> Seq<char> {
    seq!['h', 't', 't', 'p', 's', ':', '/', '/', 'g', 'i', 't', 'h', 'u', 'b', '.', 'c', 'o', 'm', '/']
}

pub open spec fn blob_marker() -> Seq<char> {
    seq!['/', 'b', 'l', 'o', 'b', '/']
}

/// What a permalink names: repository, revision, file and line range.
pub struct PermalinkModel {
    pub repo: Seq<char>,
    pub sha: Seq<char>,
    pub file: Seq<char>,
    pub start: u32,
    pub end: u32,
}

/// Decodes `https://github.com/<owner>/<name>/blob/<sha>/<path>#<fragment>`.
pub open spec fn permalink_spec(u: Seq<char>) -> Option<PermalinkModel> {
    let p = github_prefix();
    if u.len() < p.len() || u.subrange(0, p.len() as int) != p {
        None
    } else {
        let rest = u.subrange(p.len() as int, u.len() as int);
        let h = char_index_from(rest, '#', 0);
        let path = rest.subrange(0, h);
        let frag = rest.subrange(h + 1, rest.len() as int);
        let b = pattern_index_from(path, blob_marker(), 0);
        let after = path.subrange(b + 6, path.len() as int);
        let sl = char_index_from(after, '/', 0);
        if h < 0 || b < 0 || sl < 0 {
            None
        } else {
            match fragment_spec(frag) {
                Some((a, e)) => Some(PermalinkModel {
                    repo: path.subrange(0, b),
                    sha: after.subrange(0, sl),
                    file: after.subrange(sl + 1, after.len() as int),
                    start: a,
                    end: e,
                }),
                None => None,
            }
        }
    }
}

/// The fourth field of a line (the relevance score), when the line has one.
pub open spec fn score_field(s: Seq<char>) -> Option<Seq<char>> {
    let c0 = char_index_from(s, ',', 0);
    let c1 = char_index_from(s, ',', c0 + 1);
    let c2 = char_index_from(s, ',', c1 + 1);
    let c3 = char_index_from(s, ',', c2 + 1);
    let score_end = if c3 < 0 { s.len() as int } else { c3 };
    if c0 < 0 || c1 < 0 || c2 < 0 {
        None
    } else {
        Some(s.subrange(c2 + 1, score_end))
    }
}

/// Decodes one annotation line `language,query,permalink,score,...`; a line with
/// score `0`, or one that does not decode, gives nothing.
pub open spec fn parse_line_spec(s: Seq<char>) -> Option<RowModel> {
    let c0 = char_index_from(s, ',', 0);
    let c1 = char_index_from(s, ',', c0 + 1);
    let c2 = char_index_from(s, ',', c1 + 1);
    let query = s.subrange(c0 + 1, c1);
    let url = s.subrange(c1 + 1, c2);
    match score_field(s) {
        None => None,
        Some(score) => if score == seq!['0'] {
            None
        } else {
            match permalink_spec(url) {
                Some(p) => Some(RowModel {
                    repo: p.repo,
                    sha: p.sha,
                    query,
                    file: p.file,
                    start: p.start,
                    end: p.end,
                }),
                None => None,
            }
        },
    }
}

/// A line with the one trailing carriage return it may have removed.
pub open spec fn strip_cr(s: Seq<char>) -> Seq<char> {
    if s.len() > 0 && s.last() == '\r' { s.drop_last() } else { s }
}

/// The rows decoded from the lines of `s` that start at or after `i`; lines end
/// at `\n`, optionally preceded by `\r`, and the last one needs no terminator.
pub open spec fn rows_from(s: Seq<char>, i: int) -> Seq<RowModel>
    decreases s.len() - i,
{
    if i < 0 || i >= s.len() {
        Seq::empty()
    } else {
        let e = char_index_from(s, '\n', i);
        let stop = if e < i || e > s.len() { s.len() as int } else { e };
        let rest = if stop >= s.len() { Seq::empty() } else { rows_from(s, stop + 1) };
        match parse_line_spec(strip_cr(s.subrange(i, stop))) {
            Some(r) => seq![r] + rest,
            None => rest,
        }
    }
}

proof fn lemma_char_index_bounds(s: Seq<char>, c: char, i: int)
    requires
        0 <= i,
    ensures
        char_index_from(s, c, i) == -1 || (i <= char_index_from(s, c, i) < s.len()
            && s[char_index_from(s, c, i)] == c),
    decreases s.len() - i,
{
    if i < s.len() && s[i] != c {
        lemma_char_index_bounds(s, c, i + 1);
    }
}

/// Relies on `str::chars`: the characters of a string, in order.
#[verifier::external_body]
pub(crate) fn chars_of(s: &str) -> (r: Vec<char>)
    ensures
        r@ == s@,
{
    s.chars().collect()
}

/// Relies on `String: FromIterator<char>`: the string of the given characters.
#[verifier::external_body]
pub(crate) fn string_of(v: &[char]) -> (r: String)
    ensures
        r@ == v@,
{
    v.iter().collect()
}

fn slice_of(s: &Vec<char>, lo: usize, hi: usize) -> (r: Vec<char>)
    requires
        lo <= hi <= s.len(),
    ensures
        r@ == s@.subrange(lo as int, hi as int),
{
    let mut r: Vec<char> = Vec::new();
    let mut i: usize = lo;
    while i < hi
        invariant
            lo <= i <= hi <= s.len(),
            r@ == s@.subrange(lo as int, i as int),
        decreases hi - i,
    {
        r.push(s[i]);
        i = i + 1;
        assert(r@ =~= s@.subrange(lo as int, i as int));
    }
    r
}

pub(crate) fn find_char(s: &Vec<char>, c: char, from: usize) -> (r: Option<usize>)
    ensures
        match r {
            Some(i) => from <= i < s.len() && s@[i as int] == c && char_index_from(s@, c, from as int) == i,
            None => char_index_from(s@, c, from as int) == -1,
        },
{
    let mut i: usize = from;
    while i < s.len()
        invariant
            from <= i,
            char_index_from(s@, c, from as int) == char_index_from(s@, c, i as int),
        decreases s.len() - i,
    {
        if s[i] == c {
            return Some(i);
        }
        i = i + 1;
    }
    None
}

fn matches_at(s: &Vec<char>, pat: &Vec<char>, at: usize) -> (r: bool)
    requires
        at + pat.len() <= s.len(),
    ensures
        r == (s@.subrange(at as int, at + pat.len()) == pat@),
{
    let mut k: usize = 0;
    while k < pat.len()
        invariant
            k <= pat.len(),
            at + pat.len() <= s.len(),
            forall|j: int| 0 <= j < k ==> s@[at + j] == pat@[j],
        decreases pat.len() - k,
    {
        if s[at + k] != pat[k] {
            assert(s@.subrange(at as int, at + pat.len())[k as int] != pat@[k as int]);
            return false;
        }
        k = k + 1;
    }
    assert(s@.subrange(at as int, at + pat.len()) =~= pat@);
    true
}

fn find_pattern(s: &Vec<char>, pat: &Vec<char>) -> (r: Option<usize>)
    requires
        pat.len() > 0,
    ensures
        match r {
            Some(i) => i + pat.len() <= s.len() && pattern_index_from(s@, pat@, 0) == i,
            None => pattern_index_from(s@, pat@, 0) == -1,
        },
{
    if pat.len() > s.len() {
        return None;
    }
    let mut i: usize = 0;
    while i <= s.len() - pat.len()
        invariant
            pat.len() > 0,
            pat.len() <= s.len(),
            pattern_index_from(s@, pat@, 0) == pattern_index_from(s@, pat@, i as int),
        decreases s.len() - i,
    {
        if matches_at(s, pat, i) {
            return Some(i);
        }
        i = i + 1;
    }
    None
}

proof fn lemma_digits_value_grows(d: Seq<char>, k: int)
    requires
        0 <= k <= d.len(),
    ensures
        digits_value(d.subrange(0, k)) <= digits_value(d),
    decreases d.len() - k,
{
    if k < d.len() {
        lemma_digits_value_grows(d, k + 1);
        assert(d.subrange(0, k + 1).drop_last() =~= d.subrange(0, k));
    } else {
        assert(d.subrange(0, k) =~= d);
    }
}

/// Reads a `u32` written in decimal, with an optional leading `+`.
fn parse_u32(s: &Vec<char>) -> (r: Option<u32>)
    ensures
        r == parse_u32_spec(s@),
{
    let lo: usize = if s.len() > 0 && s[0] == '+' { 1 } else { 0 };
    let ghost d = unsigned_digits(s@);
    assert(d =~= s@.subrange(lo as int, s.len() as int));
    if lo == s.len() {
        return None;
    }
    let mut acc: u32 = 0;
    let mut k: usize = lo;
    while k < s.len()
        invariant
            lo <= k <= s.len(),
            d == s@.subrange(lo as int, s.len() as int),
            d == unsigned_digits(s@),
            forall|j: int| 0 <= j < k - lo ==> is_digit(#[trigger] d[j]),
            acc as nat == digits_value(d.subrange(0, k - lo)),
        decreases s.len() - k,
    {
        let c = s[k];
        assert(d[k - lo] == c);
        let cu = c as u32;
        if !(48 <= cu && cu <= 57) {
            assert(!is_digit(d[k - lo]));
            assert(!all_digits(d));
            return None;
        }
        let v: u32 = cu - 48;
        assert(d.subrange(0, k + 1 - lo).drop_last() =~= d.subrange(0, k - lo));
        assert(v == digit_value(c));
        if acc > 429496729 || (acc == 429496729 && v > 5) {
            proof {
                lemma_digits_value_grows(d, k + 1 - lo);
                assert(acc * 10 + v > 4294967295) by (nonlinear_arith)
                    requires
                        acc > 429496729 || (acc == 429496729 && v > 5),
                ;
            }
            return None;
        }
        assert(acc * 10 + v <= 4294967295) by (nonlinear_arith)
            requires
                acc <= 429496729,
                v <= 9,
                acc == 429496729 ==> v <= 5,
        ;
        acc = acc * 10 + v;
        k = k + 1;
    }
    assert(d.subrange(0, d.len() as int) =~= d);
    Some(acc)
}

/// Reads a line number written `L<n>`.
fn line_number(s: &Vec<char>) -> (r: Option<u32>)
    ensures
        r == line_number_spec(s@),
{
    if s.len() > 0 && s[0] == 'L' {
        let rest = slice_of(s, 1, s.len());
        assert(rest@ =~= s@.drop_first());
        parse_u32(&rest)
    } else {
        None
    }
}

fn fragment_range(f: &Vec<char>) -> (r: Option<(u32, u32)>)
    ensures
        r == fragment_spec(f@),
{
    match find_char(f, '-', 0) {
        Some(dash) => {
            let a = line_number(&slice_of(f, 0, dash));
            let b = line_number(&slice_of(f, dash + 1, f.len()));
            match (a, b) {
                (Some(a), Some(b)) => Some((a, b)),
                _ => None,
            }
        },
        None => match line_number(f) {
            Some(n) => if n < u32::MAX { Some((n, n + 1)) } else { None },
            None => None,
        },
    }
}

/// Decodes a permalink fragment into a half-open line range: `L<a>-L<b>` is
/// `[a, b)`, `L<n>` is `[n, n + 1)`; anything else gives `None`.
pub fn decode_fragment(fragment: &str) -> (r: Option<Range<u32>>)
    ensures
        match fragment_spec(fragment@) {
            Some((a, b)) => r is Some && r->Some_0.start == a && r->Some_0.end == b,
            None => r is None,
        },
{
    let f = chars_of(fragment);
    match fragment_range(&f) {
        Some((a, b)) => Some(Range { start: a, end: b }),
        None => None,
    }
}

pub(crate) fn github_prefix_chars() -> (r: Vec<char>)
    ensures
        r@ == github_prefix(),
{
    let r = vec!['h', 't', 't', 'p', 's', ':', '/', '/', 'g', 'i', 't', 'h', 'u', 'b', '.', 'c', 'o', 'm', '/'];
    assert(r@ =~= github_prefix());
    r
}

fn blob_marker_chars() -> (r: Vec<char>)
    ensures
        r@ == blob_marker(),
{
    let r = vec!['/', 'b', 'l', 'o', 'b', '/'];
    assert(r@ =~= blob_marker());
    r
}

/// The decoded parts of a permalink.
struct Permalink {
    repo: Vec<char>,
    sha: Vec<char>,
    file: Vec<char>,
    start: u32,
    end: u32,
}

fn decode_permalink(u: &Vec<char>) -> (r: Option<Permalink>)
    ensures
        match permalink_spec(u@) {
            Some(p) => r is Some && r->Some_0.repo@ == p.repo && r->Some_0.sha@ == p.sha
                && r->Some_0.file@ == p.file && r->Some_0.start == p.start && r->Some_0.end == p.end,
            None => r is None,
        },
{
    let p = github_prefix_chars();
    if u.len() < p.len() || !matches_at(u, &p, 0) {
        return None;
    }
    let rest = slice_of(u, p.len(), u.len());
    let h = match find_char(&rest, '#', 0) {
        Some(h) => h,
        None => return None,
    };
    let path = slice_of(&rest, 0, h);
    let frag = slice_of(&rest, h + 1, rest.len());
    let marker = blob_marker_chars();
    let b = match find_pattern(&path, &marker) {
        Some(b) => b,
        None => return None,
    };
    let after = slice_of(&path, b + 6, path.len());
    let sl = match find_char(&after, '/', 0) {
        Some(sl) => sl,
        None => return None,
    };
    match fragment_range(&frag) {
        Some((a, e)) => Some(Permalink {
            repo: slice_of(&path, 0, b),
            sha: slice_of(&after, 0, sl),
            file: slice_of(&after, sl + 1, after.len()),
            start: a,
            end: e,
        }),
        None => None,
    }
}

fn is_zero_score(s: &Vec<char>, lo: usize, hi: usize) -> (r: bool)
    requires
        lo <= hi <= s.len(),
    ensures
        r == (s@.subrange(lo as int, hi as int) == seq!['0']),
{
    if hi - lo == 1 && s[lo] == '0' {
        assert(s@.subrange(lo as int, hi as int) =~= seq!['0']);
        true
    } else {
        if hi - lo == 1 {
            assert(s@.subrange(lo as int, hi as int)[0] != seq!['0'][0]);
        } else {
            assert(s@.subrange(lo as int, hi as int).len() != seq!['0'].len());
        }
        false
    }
}

fn parse_line_chars(s: &Vec<char>) -> (r: Option<AnnotationRow>)
    ensures
        match parse_line_spec(s@) {
            Some(m) => r is Some && r->Some_0@ == m,
            None => r is None,
        },
{
    let c0 = match find_char(s, ',', 0) {
        Some(c) => c,
        None => return None,
    };
    let c1 = match find_char(s, ',', c0 + 1) {
        Some(c) => c,
        None => return None,
    };
    let c2 = match find_char(s, ',', c1 + 1) {
        Some(c) => c,
        None => return None,
    };
    let score_end = match find_char(s, ',', c2 + 1) {
        Some(c) => c,
        None => s.len(),
    };
    if is_zero_score(s, c2 + 1, score_end) {
        return None;
    }
    let url = slice_of(s, c1 + 1, c2);
    match decode_permalink(&url) {
        Some(p) => Some(AnnotationRow {
            repo: string_of(p.repo.as_slice()),
            sha: string_of(p.sha.as_slice()),
            query: string_of(slice_of(s, c0 + 1, c1).as_slice()),
            file: string_of(p.file.as_slice()),
            lines: Range { start: p.start, end: p.end },
        }),
        None => None,
    }
}

/// Decodes one annotation line `language,query,permalink,score,...` into a row;
/// a line with score `0`, too few fields or a permalink that does not decode
/// gives `None`.
pub fn parse_annotation_line(line: &str) -> (r: Option<AnnotationRow>)
    ensures
        match parse_line_spec(line@) {
            Some(m) => r is Some && r->Some_0@ == m,
            None => r is None,
        },
{
    let s = chars_of(line);
    parse_line_chars(&s)
}

/// Decodes every line of an annotation export, in order, dropping the lines
/// that do not decode.
pub fn parse_annotations(content: &str) -> (r: Vec<AnnotationRow>)
    ensures
        rows_view(r@) == rows_from(content@, 0),
{
    let s = chars_of(content);
    let mut out: Vec<AnnotationRow> = Vec::new();
    let mut i: usize = 0;
    while i < s.len()
        invariant
            s@ == content@,
            i <= s.len(),
            rows_view(out@) + rows_from(s@, i as int) == rows_from(s@, 0),
        decreases s.len() - i,
    {
        let (stop, next) = match find_char(&s, '\n', i) {
            Some(e) => (e, e + 1),
            None => (s.len(), s.len()),
        };
        let mut line_end = stop;
        if stop > i && s[stop - 1] == '\r' {
            line_end = stop - 1;
        }
        let line = slice_of(&s, i, line_end);
        assert(line@ =~= strip_cr(s@.subrange(i as int, stop as int)));
        let ghost before = rows_view(out@);
        match parse_line_chars(&line) {
            Some(row) => {
                out.push(row);
                assert(rows_view(out@) =~= before.push(row@));
                assert(rows_view(out@) + rows_from(s@, next as int) =~= before + (seq![row@] + rows_from(
                    s@,
                    next as int,
                )));
            },
            None => {},
        }
        i = next;
    }
    assert(rows_view(out@) =~= rows_view(out@) + rows_from(s@, i as int));
    out
}

/// A line whose relevance score is `0` decodes to no row, so it contributes no
/// expected result to a dataset.
pub proof fn lemma_zero_score_line_gives_nothing(line: Seq<char>)
    requires
        score_field(line) == Some(seq!['0']),
    ensures
        parse_line_spec(line) is None,
{
}

/// Every row decoded from a text comes from a line whose score is not `0`.
pub proof fn lemma_decoded_rows_have_nonzero_score(s: Seq<char>, i: int, k: int)
    requires
        0 <= k < rows_from(s, i).len(),
    ensures
        exists|a: int, b: int|
            0 <= a <= b <= s.len() && #[trigger] parse_line_spec(strip_cr(s.subrange(a, b))) == Some(
                rows_from(s, i)[k],
            ) && score_field(strip_cr(s.subrange(a, b))) != Some(seq!['0']),
    decreases s.len() - i,
{
    if 0 <= i < s.len() {
        let e = char_index_from(s, '\n', i);
        let stop = if e < i || e > s.len() { s.len() as int } else { e };
        let rest = if stop >= s.len() { Seq::<RowModel>::empty() } else { rows_from(s, stop + 1) };
        let line = strip_cr(s.subrange(i, stop));
        match parse_line_spec(line) {
            Some(r) => {
                if k == 0 {
                    assert(parse_line_spec(strip_cr(s.subrange(i, stop))) == Some(rows_from(s, i)[k]));
                } else {
                    assert(rows_from(s, i)[k] == rest[k - 1]);
                    lemma_decoded_rows_have_nonzero_score(s, stop + 1, k - 1);
                }
            },
            None => {
                lemma_decoded_rows_have_nonzero_score(s, stop + 1, k);
            },
        }
    }
}

} // verus!
