//! The project service's decisions over loaded graphs: which graphs are
//! open, method lookups and neighbour queries ordered by name, reading and
//! rewriting a method's source span, global search, project identifiers and
//! which file changes matter.
//!
//! Persistence, file watching and file access are left to the caller; these
//! functions take what those produced.
use vstd::prelude::*;

use crate::analysis::CSharpAnalyzer;
use crate::domain::{GraphModel, MethodGraph, MethodId, MethodNode};
use crate::solution::{is_last_index, opt_view};
use crate::text::{
    chars_of, chars_eq_str, contains, contains_chars, str_eq, join, join_range, lines_of, lowercase,
    push_decimal, push_signed_decimal, push_str, rfind_char, seq_le, signed_decimal, decimal,
    split_lines, str_le, string_from_chars, subvec, to_lowercase, trim, trim_str,
    lemma_seq_le_total, lemma_seq_le_transitive, lemma_split_join, lemma_split_lines_no_newline,
    has_no_newline, lines_survive_join, has_no_crlf, lemma_split_lines_no_cr, lemma_join_split_lines,
    ends_with_cr,
};

verus! {

/// At most this many matching lines are reported per method.
pub const MAX_SEARCH_LINES_PER_METHOD: usize = 5;

/// At most this many matches are reported by one search.
pub const MAX_SEARCH_RESULTS: usize = 100;

/// Application-level errors.
#[derive(Debug, Clone, PartialEq, Eq)]
pub enum AppError {
    NoGraphLoaded,
    MethodNotFound(String),
    Analysis(String),
    Persistence(String),
    NotInitialized,
    ProjectNotFound(String),
    ProjectNotOpen(String),
    ProjectUnavailable(String),
    Watch(String),
    Source(String),
}

impl AppError {
    /// The error's message.
    pub open spec fn message_spec(self) -> Seq<char> {
        match self {
            AppError::NoGraphLoaded => "no graph has been loaded yet"@,
            AppError::MethodNotFound(s) => "method not found: "@ + s@,
            AppError::Analysis(s) => "analysis failed: "@ + s@,
            AppError::Persistence(s) => "persistence failed: "@ + s@,
            AppError::NotInitialized => "project service has not initialized"@,
            AppError::ProjectNotFound(s) => "project not found: "@ + s@,
            AppError::ProjectNotOpen(s) => "project is not open: "@ + s@,
            AppError::ProjectUnavailable(s) => "project is unavailable: "@ + s@,
            AppError::Watch(s) => "file watcher failed: "@ + s@,
            AppError::Source(s) => "could not read method source: "@ + s@,
        }
    }

    /// The error's message.
    pub fn message(&self) -> (m: String)
        ensures
            m@ == self.message_spec(),
    {
        let mut out: Vec<char> = Vec::new();
        match self {
            AppError::NoGraphLoaded => push_str(&mut out, "no graph has been loaded yet"),
            AppError::MethodNotFound(s) => {
                push_str(&mut out, "method not found: ");
                push_str(&mut out, s.as_str());
            },
            AppError::Analysis(s) => {
                push_str(&mut out, "analysis failed: ");
                push_str(&mut out, s.as_str());
            },
            AppError::Persistence(s) => {
                push_str(&mut out, "persistence failed: ");
                push_str(&mut out, s.as_str());
            },
            AppError::NotInitialized => push_str(&mut out, "project service has not initialized"),
            AppError::ProjectNotFound(s) => {
                push_str(&mut out, "project not found: ");
                push_str(&mut out, s.as_str());
            },
            AppError::ProjectNotOpen(s) => {
                push_str(&mut out, "project is not open: ");
                push_str(&mut out, s.as_str());
            },
            AppError::ProjectUnavailable(s) => {
                push_str(&mut out, "project is unavailable: ");
                push_str(&mut out, s.as_str());
            },
            AppError::Watch(s) => {
                push_str(&mut out, "file watcher failed: ");
                push_str(&mut out, s.as_str());
            },
            AppError::Source(s) => {
                push_str(&mut out, "could not read method source: ");
                push_str(&mut out, s.as_str());
            },
        }
        string_from_chars(out.as_slice())
    }
}

/// A project remembered by the service.
#[derive(Debug, Clone)]
pub struct ProjectSummary {
    pub id: String,
    pub path: String,
    pub display_name: String,
    pub last_opened_at: i64,
}

/// The graph loaded for a project.
#[derive(Debug, Clone)]
pub struct LoadedGraph {
    pub project_id: String,
    pub source_path: String,
    pub graph: MethodGraph,
}

/// The model of a loaded graph.
pub struct LoadedGraphView {
    pub project_id: Seq<char>,
    pub source_path: Seq<char>,
    pub graph: GraphModel,
}

impl View for LoadedGraph {
    type V = LoadedGraphView;

    open spec fn view(&self) -> LoadedGraphView {
        LoadedGraphView {
            project_id: self.project_id@,
            source_path: self.source_path@,
            graph: self.graph@,
        }
    }
}

impl LoadedGraph {
    /// A copy of this loaded graph.
    pub fn duplicate(&self) -> (r: Self)
        ensures
            r@ == self@,
    {
        LoadedGraph {
            project_id: self.project_id.clone(),
            source_path: self.source_path.clone(),
            graph: self.graph.duplicate(),
        }
    }
}

/// A method's source text and the line it starts at.
#[derive(Debug, Clone)]
pub struct MethodSource {
    pub code: String,
    pub start_line: u32,
}

/// One matching line inside a method's source span.
#[derive(Debug, Clone)]
pub struct SearchMatch {
    pub method: MethodNode,
    pub line_number: u32,
    pub line_text: String,
}

/// The model of a search match.
pub struct SearchHit {
    pub method: MethodNode,
    pub line_number: u32,
    pub line_text: Seq<char>,
}

impl View for SearchMatch {
    type V = SearchHit;

    open spec fn view(&self) -> SearchHit {
        SearchHit { method: self.method, line_number: self.line_number, line_text: self.line_text@ }
    }
}

// ---------------------------------------------------------------------------
// Ordering nodes by display name
// ---------------------------------------------------------------------------

/// `a`'s display name sorts before or equal to `b`'s.
pub open spec fn display_le(a: MethodNode, b: MethodNode) -> bool {
    seq_le(a.display_name@, b.display_name@)
}

/// Where a stable sort places `x` among the sorted `sorted`: after every
/// node whose display name is not greater.
pub open spec fn insert_pos(sorted: Seq<MethodNode>, x: MethodNode) -> int
    decreases sorted.len(),
{
    if sorted.len() == 0 {
        0
    } else if !display_le(sorted[0], x) {
        0
    } else {
        1 + insert_pos(sorted.drop_first(), x)
    }
}

/// `s` stably sorted by display name: equal names keep their order.
pub open spec fn sort_by_display(s: Seq<MethodNode>) -> Seq<MethodNode>
    decreases s.len(),
{
    if s.len() == 0 {
        seq![]
    } else {
        let r = sort_by_display(s.drop_last());
        r.insert(insert_pos(r, s.last()), s.last())
    }
}

/// Nodes ordered by display name.
pub open spec fn sorted_by_display(s: Seq<MethodNode>) -> bool {
    forall|i: int, j: int| 0 <= i < j < s.len() ==> display_le(#[trigger] s[i], #[trigger] s[j])
}

proof fn lemma_insert_pos_is(sorted: Seq<MethodNode>, x: MethodNode, k: int)
    requires
        0 <= k <= sorted.len(),
        forall|j: int| 0 <= j < k ==> display_le(#[trigger] sorted[j], x),
        k == sorted.len() || !display_le(sorted[k], x),
    ensures
        insert_pos(sorted, x) == k,
    decreases k,
{
    if k > 0 {
        let t = sorted.drop_first();
        assert forall|j: int| 0 <= j < k - 1 implies display_le(#[trigger] t[j], x) by {
            assert(t[j] == sorted[j + 1]);
        }
        lemma_insert_pos_is(t, x, k - 1);
    }
}

proof fn lemma_insert_pos_props(sorted: Seq<MethodNode>, x: MethodNode)
    ensures
        0 <= insert_pos(sorted, x) <= sorted.len(),
        forall|j: int| 0 <= j < insert_pos(sorted, x) ==> display_le(#[trigger] sorted[j], x),
        insert_pos(sorted, x) < sorted.len() ==> !display_le(sorted[insert_pos(sorted, x)], x),
    decreases sorted.len(),
{
    if sorted.len() > 0 && display_le(sorted[0], x) {
        let t = sorted.drop_first();
        lemma_insert_pos_props(t, x);
        assert forall|j: int| 0 <= j < insert_pos(sorted, x) implies display_le(#[trigger] sorted[j], x) by {
            if j > 0 {
                assert(sorted[j] == t[j - 1]);
            }
        }
    }
}

/// A stable sort by display name orders the nodes by display name and keeps
/// every node, as often as it occurs.
pub proof fn lemma_sort_by_display(s: Seq<MethodNode>)
    ensures
        sorted_by_display(sort_by_display(s)),
        sort_by_display(s).to_multiset() == s.to_multiset(),
        sort_by_display(s).len() == s.len(),
    decreases s.len(),
{
    broadcast use {vstd::seq_lib::to_multiset_insert, vstd::seq_lib::to_multiset_build, vstd::seq_lib::to_multiset_len};
    if s.len() > 0 {
        let r = sort_by_display(s.drop_last());
        let x = s.last();
        lemma_sort_by_display(s.drop_last());
        lemma_insert_pos_props(r, x);
        let p = insert_pos(r, x);
        let out = r.insert(p, x);
        assert forall|i: int, j: int| 0 <= i < j < out.len() implies display_le(#[trigger] out[i], #[trigger] out[j]) by {
            if j < p {
                assert(out[i] == r[i] && out[j] == r[j]);
            } else if j == p {
                assert(out[i] == r[i]);
            } else if i < p {
                assert(out[i] == r[i] && out[j] == r[j - 1]);
                assert(display_le(r[i], x));
                lemma_seq_le_total(r[p].display_name@, x.display_name@);
                if i < j - 1 {
                    assert(display_le(r[i], r[j - 1]));
                }
            } else if i == p {
                assert(out[j] == r[j - 1]);
                lemma_seq_le_total(r[p].display_name@, x.display_name@);
                if p < j - 1 {
                    assert(display_le(r[p], r[j - 1]));
                    lemma_seq_le_transitive(x.display_name@, r[p].display_name@, r[j - 1].display_name@);
                }
            } else {
                assert(out[i] == r[i - 1] && out[j] == r[j - 1]);
            }
        }
        assert(s.drop_last().push(x) =~= s);
        assert(out.to_multiset() == r.to_multiset().insert(x));
        assert(s.to_multiset() == s.drop_last().to_multiset().insert(x));
        assert(sort_by_display(s) == out);
    } else {
        assert(s =~= sort_by_display(s));
    }
}

/// `nodes` stably sorted by display name.
pub fn sort_nodes_by_display(nodes: Vec<MethodNode>) -> (r: Vec<MethodNode>)
    ensures
        r@ == sort_by_display(nodes@),
{
    let mut out: Vec<MethodNode> = Vec::new();
    let ghost all = nodes@;
    for node in it: nodes.into_iter()
        invariant
            it.seq() == all,
            out@ == sort_by_display(all.take(it.index() as int)),
    {
        assert(all.take(it.index() + 1).drop_last() =~= all.take(it.index() as int));
        let mut j: usize = 0;
        while j < out.len() && str_le(out[j].display_name.as_str(), node.display_name.as_str())
            invariant
                j <= out.len(),
                forall|k: int| 0 <= k < j ==> display_le(#[trigger] out@[k], node),
            decreases out.len() - j,
        {
            j = j + 1;
        }
        proof {
            lemma_insert_pos_is(out@, node, j as int);
        }
        out.insert(j, node);
    }
    assert(all.take(all.len() as int) =~= all);
    out
}

// ---------------------------------------------------------------------------
// Matching lines inside a method's span
// ---------------------------------------------------------------------------

/// The lines `start..k` (0-based) of `lines` whose lowercase, given by
/// `lowered`, contains `needle`, as `(1-based line number, trimmed text)`,
/// in order.
pub open spec fn line_hits(lines: Seq<Seq<char>>, lowered: Seq<Seq<char>>, start: int, k: int, needle: Seq<char>) -> Seq<(u32, Seq<char>)>
    decreases k - start,
{
    if k <= start {
        seq![]
    } else {
        let rest = line_hits(lines, lowered, start, k - 1, needle);
        if contains(lowered[k - 1], needle) {
            rest.push((k as u32, trim(lines[k - 1])))
        } else {
            rest
        }
    }
}

/// The 0-based first line of a 1-based span starting at `start_line`.
pub open spec fn span_start(start_line: u32) -> int {
    if start_line == 0 {
        0
    } else {
        start_line - 1
    }
}

/// The lowercase of each line.
pub open spec fn lowered_lines(lines: Seq<Seq<char>>) -> Seq<Seq<char>> {
    lines.map_values(|l: Seq<char>| lowercase(l))
}

/// Case-insensitive matches of `needle` (already lowercase) within the
/// 1-based line span `start_line..=end_line` of `lines`, whose lowercase
/// forms are `lowered`, as `(line number, trimmed line)` in line order, at
/// most `max` of them.
pub open spec fn find_line_matches_spec(
    lines: Seq<Seq<char>>,
    lowered: Seq<Seq<char>>,
    start_line: u32,
    end_line: u32,
    needle: Seq<char>,
    max: nat,
) -> Seq<(u32, Seq<char>)> {
    let start = span_start(start_line);
    let end = if end_line <= lines.len() {
        end_line as int
    } else {
        lines.len() as int
    };
    if start >= end || start >= lines.len() || max == 0 {
        seq![]
    } else {
        let hits = line_hits(lines, lowered, start, end, needle);
        if hits.len() <= max {
            hits
        } else {
            hits.take(max as int)
        }
    }
}

proof fn lemma_line_hits_prefix(lines: Seq<Seq<char>>, lowered: Seq<Seq<char>>, start: int, i: int, k: int, needle: Seq<char>)
    requires
        start <= i <= k,
    ensures
        line_hits(lines, lowered, start, i, needle).len() <= line_hits(lines, lowered, start, k, needle).len(),
        line_hits(lines, lowered, start, k, needle).take(line_hits(lines, lowered, start, i, needle).len() as int)
            == line_hits(lines, lowered, start, i, needle),
    decreases k - i,
{
    if i < k {
        lemma_line_hits_prefix(lines, lowered, start, i, k - 1, needle);
        let a = line_hits(lines, lowered, start, i, needle);
        let b = line_hits(lines, lowered, start, k - 1, needle);
        let c = line_hits(lines, lowered, start, k, needle);
        assert(c.take(a.len() as int) =~= b.take(a.len() as int));
    } else {
        let a = line_hits(lines, lowered, start, i, needle);
        assert(a.take(a.len() as int) =~= a);
    }
}

proof fn lemma_line_hits(lines: Seq<Seq<char>>, lowered: Seq<Seq<char>>, start: int, k: int, needle: Seq<char>)
    requires
        0 <= start,
        k <= lines.len(),
        k <= u32::MAX,
    ensures
        ({
            let h = line_hits(lines, lowered, start, k, needle);
            &&& forall|i: int, j: int| 0 <= i < j < h.len() ==> (#[trigger] h[i]).0 < (#[trigger] h[j]).0
            &&& forall|i: int| 0 <= i < h.len() ==> {
                let n = (#[trigger] h[i]).0 as int;
                &&& start < n <= k
                &&& contains(lowered[n - 1], needle)
                &&& h[i].1 == trim(lines[n - 1])
            }
        }),
    decreases k - start,
{
    if k > start {
        lemma_line_hits(lines, lowered, start, k - 1, needle);
        let rest = line_hits(lines, lowered, start, k - 1, needle);
        let h = line_hits(lines, lowered, start, k, needle);
        if contains(lowered[k - 1], needle) {
            let x = (k as u32, trim(lines[k - 1]));
            assert(h == rest.push(x));
            assert((k as u32) as int == k);
            assert forall|i: int, j: int| 0 <= i < j < h.len() implies (#[trigger] h[i]).0 < (#[trigger] h[j]).0 by {
                if j < rest.len() {
                    assert(h[i] == rest[i] && h[j] == rest[j]);
                } else {
                    assert(h[i] == rest[i]);
                }
            }
            assert forall|i: int| 0 <= i < h.len() implies {
                let n = (#[trigger] h[i]).0 as int;
                &&& start < n <= k
                &&& contains(lowered[n - 1], needle)
                &&& h[i].1 == trim(lines[n - 1])
            } by {
                if i < rest.len() {
                    assert(h[i] == rest[i]);
                }
            }
        }
    }
}

/// The matches of a span are in strictly increasing line order, at most
/// `max` of them; each lies inside the span and the file, is a line whose
/// lowercase (as `lowered` gives it) contains the needle, and carries that
/// line trimmed.
pub proof fn lemma_find_line_matches(lines: Seq<Seq<char>>, lowered: Seq<Seq<char>>, start_line: u32, end_line: u32, needle: Seq<char>, max: nat)
    ensures
        ({
            let r = find_line_matches_spec(lines, lowered, start_line, end_line, needle, max);
            &&& r.len() <= max
            &&& forall|i: int, j: int| 0 <= i < j < r.len() ==> (#[trigger] r[i]).0 < (#[trigger] r[j]).0
            &&& forall|i: int| 0 <= i < r.len() ==> {
                let n = (#[trigger] r[i]).0 as int;
                &&& span_start(start_line) < n <= end_line
                &&& n <= lines.len()
                &&& contains(lowered[n - 1], needle)
                &&& r[i].1 == trim(lines[n - 1])
            }
        }),
{
    let start = span_start(start_line);
    let end = if end_line <= lines.len() { end_line as int } else { lines.len() as int };
    if !(start >= end || start >= lines.len() || max == 0) {
        lemma_line_hits(lines, lowered, start, end, needle);
        let h = line_hits(lines, lowered, start, end, needle);
        if h.len() > max {
            let r = h.take(max as int);
            assert forall|i: int, j: int| 0 <= i < j < r.len() implies (#[trigger] r[i]).0 < (#[trigger] r[j]).0 by {
                assert(r[i] == h[i] && r[j] == h[j]);
            }
            assert forall|i: int| 0 <= i < r.len() implies {
                let n = (#[trigger] r[i]).0 as int;
                &&& span_start(start_line) < n <= end_line
                &&& n <= lines.len()
                &&& contains(lowered[n - 1], needle)
                &&& r[i].1 == trim(lines[n - 1])
            } by {
                assert(r[i] == h[i]);
            }
        }
    }
}

/// A search never reports more than `MAX_SEARCH_RESULTS` matches.
pub proof fn lemma_search_capped(ms: Seq<MethodNode>, files: Seq<(String, Option<String>)>, needle: Seq<char>)
    ensures
        search_over(ms, files, needle).len() <= MAX_SEARCH_RESULTS,
    decreases ms.len(),
{
    if ms.len() > 0 {
        lemma_search_capped(ms.drop_last(), files, needle);
    }
}

/// The view of a list of `(line number, text)` pairs.
pub open spec fn hits_view(v: Seq<(u32, String)>) -> Seq<(u32, Seq<char>)> {
    v.map_values(|p: (u32, String)| (p.0, p.1@))
}

/// The view of a list of string slices.
pub open spec fn lines_view(v: Seq<&str>) -> Seq<Seq<char>> {
    v.map_values(|s: &str| s@)
}

/// Substring matches of `needle` within a 1-based line span of
/// `all_lines`, tested against the lines' lowercase forms `lowered`.
/// Returns `(line_number, trimmed_text)` ordered by line, capped at `max`.
pub fn find_line_matches_in(
    all_lines: &[&str],
    lowered: &Vec<String>,
    start_line: u32,
    end_line: u32,
    needle: &str,
    max: usize,
) -> (r: Vec<(u32, String)>)
    requires
        lowered.len() == all_lines.len(),
    ensures
        hits_view(r@) == find_line_matches_spec(lines_view(all_lines@), lowered.deep_view(), start_line, end_line, needle@, max as nat),
{
    let ghost low = lowered.deep_view();
    let ghost lines = lines_view(all_lines@);
    let n = all_lines.len();
    let start: usize = if start_line == 0 { 0 } else { (start_line - 1) as usize };
    let end: usize = if (end_line as usize) <= n { end_line as usize } else { n };
    let mut res: Vec<(u32, String)> = Vec::new();
    if start >= end || start >= n || max == 0 {
        assert(hits_view(res@) =~= Seq::<(u32, Seq<char>)>::empty());
        return res;
    }
    let needle_chars = chars_of(needle);
    let mut i: usize = start;
    assert(hits_view(res@) =~= line_hits(lines, low, start as int, start as int, needle@));
    while i < end && res.len() < max
        invariant
            n == all_lines.len(),
            n == lowered.len(),
            low == lowered.deep_view(),
            lines == lines_view(all_lines@),
            start <= i <= end <= n,
            end <= end_line,
            res.len() <= max,
            needle_chars@ == needle@,
            hits_view(res@) == line_hits(lines, low, start as int, i as int, needle@),
        decreases end - i,
    {
        let line: &str = all_lines[i];
        assert(lines[i as int] == line@);
        assert(low[i as int] == lowered@[i as int]@);
        let lower_chars = chars_of(lowered[i].as_str());
        if contains_chars(&lower_chars, &needle_chars) {
            let text = trim_str(line);
            let ghost before = hits_view(res@);
            res.push(((i + 1) as u32, text));
            assert(hits_view(res@) =~= before.push(((i + 1) as u32, trim(lines[i as int]))));
        }
        i = i + 1;
    }
    proof {
        lemma_line_hits_prefix(lines, low, start as int, i as int, end as int, needle@);
        let hits = line_hits(lines, low, start as int, end as int, needle@);
        if res.len() < max {
            assert(i == end);
        } else {
            assert(hits.take(max as int) == hits_view(res@));
        }
    }
    res
}

proof fn lemma_line_hits_agree(lines: Seq<Seq<char>>, l1: Seq<Seq<char>>, l2: Seq<Seq<char>>, start: int, k: int, needle: Seq<char>)
    requires
        forall|i: int| start <= i < k ==> l1[i] == l2[i],
    ensures
        line_hits(lines, l1, start, k, needle) == line_hits(lines, l2, start, k, needle),
    decreases k - start,
{
    if k > start {
        lemma_line_hits_agree(lines, l1, l2, start, k - 1, needle);
    }
}

/// Case-insensitive substring matches within a method's 1-based line span.
/// Returns `(line_number, trimmed_text)` ordered by line, capped at `max`.
/// `needle` must already be lowercase.
pub fn find_line_matches(all_lines: &[&str], start_line: u32, end_line: u32, needle: &str, max: usize) -> (r: Vec<(u32, String)>)
    ensures
        hits_view(r@) == find_line_matches_spec(
            lines_view(all_lines@),
            lowered_lines(lines_view(all_lines@)),
            start_line,
            end_line,
            needle@,
            max as nat,
        ),
{
    let ghost lines = lines_view(all_lines@);
    let n = all_lines.len();
    let start: usize = if start_line == 0 { 0 } else { (start_line - 1) as usize };
    let end: usize = if (end_line as usize) <= n { end_line as usize } else { n };
    let mut lowered: Vec<String> = Vec::new();
    for i in 0..n
        invariant
            n == all_lines.len(),
            lines == lines_view(all_lines@),
            lowered.len() == i,
            forall|j: int| start <= j < i && j < end ==> #[trigger] lowered@[j]@ == lowercase(lines[j]),
    {
        if start <= i && i < end {
            lowered.push(to_lowercase(all_lines[i]));
        } else {
            lowered.push(String::new());
        }
    }
    let r = find_line_matches_in(all_lines, &lowered, start_line, end_line, needle, max);
    proof {
        let low = lowered.deep_view();
        let full = lowered_lines(lines);
        assert forall|i: int| start <= i < end implies low[i] == full[i] by {
            assert(low[i] == lowered@[i]@);
        }
        lemma_line_hits_agree(lines, low, full, start as int, end as int, needle@);
    }
    r
}

// ---------------------------------------------------------------------------
// A method's source span
// ---------------------------------------------------------------------------

/// The text of lines `start..end` (0-based) of `lines` joined with `'\n'`,
/// or empty when the range does not fit.
pub open spec fn span_code(lines: Seq<Seq<char>>, start: int, end: int) -> Seq<char> {
    if start <= end <= lines.len() {
        join(lines.subrange(start, end), "\n"@)
    } else {
        seq![]
    }
}

/// The source of `method` within the file text `source`: its line span
/// joined with `'\n'`, and its start line.
pub fn method_source_in(method: &MethodNode, source: &str) -> (r: MethodSource)
    ensures
        r.code@ == span_code(split_lines(source@), span_start(method.location.start_line), method.location.end_line as int),
        r.start_line == method.location.start_line,
{
    let lines = lines_of(source);
    let start: usize = if method.location.start_line == 0 { 0 } else { (method.location.start_line - 1) as usize };
    let end: usize = method.location.end_line as usize;
    let code = if start <= end && end <= lines.len() {
        let v = join_range(&lines, start, end, "\n");
        string_from_chars(v.as_slice())
    } else {
        String::new()
    };
    MethodSource { code, start_line: method.location.start_line }
}

/// The span `start..end` (0-based) of `lines` no longer fits the file.
pub open spec fn span_invalid(lines: Seq<Seq<char>>, start: int, end: int) -> bool {
    start >= lines.len() || end > lines.len() || start >= end
}

/// The file text after replacing lines `start..end` (0-based) of `source`
/// with the lines of `code`: lines joined with `'\n'`, with a final `'\n'`
/// when `source` had one.
pub open spec fn replaced_source(source: Seq<char>, start: int, end: int, code: Seq<char>) -> Seq<char> {
    let lines = split_lines(source);
    let new_lines = lines.subrange(0, start) + split_lines(code) + lines.subrange(end, lines.len() as int);
    let body = join(new_lines, "\n"@);
    if source.len() > 0 && source.last() == '\n' {
        body.push('\n')
    } else {
        body
    }
}

/// The message of the error for a span that no longer fits.
pub open spec fn stale_span_message() -> Seq<char> {
    "method source range is no longer valid; refresh the graph first"@
}

fn append_strings(out: &mut Vec<String>, src: &Vec<String>, from: usize, to: usize)
    requires
        from <= to <= src.len(),
    ensures
        final(out).deep_view() == old(out).deep_view() + src.deep_view().subrange(from as int, to as int),
{
    for i in from..to
        invariant
            from <= to <= src.len(),
            out.deep_view() == old(out).deep_view() + src.deep_view().subrange(from as int, i as int),
    {
        let ghost before = out.deep_view();
        out.push(src[i].clone());
        assert(out.deep_view() =~= before.push(src@[i as int]@));
        assert(src.deep_view().subrange(from as int, i + 1) =~= src.deep_view().subrange(from as int, i as int).push(src@[i as int]@));
    }
}

/// The new text of the file `source` after replacing `method`'s line span
/// with `code`; an error when the span no longer fits the file.
pub fn replace_method_source(method: &MethodNode, source: &str, code: &str) -> (r: Result<String, AppError>)
    ensures
        ({
            let lines = split_lines(source@);
            let start = span_start(method.location.start_line);
            let end = method.location.end_line as int;
            if span_invalid(lines, start, end) {
                r matches Err(AppError::Source(m)) && m@ == stale_span_message()
            } else {
                r matches Ok(t) && t@ == replaced_source(source@, start, end, code@)
            }
        }),
{
    let lines = lines_of(source);
    let start: usize = if method.location.start_line == 0 { 0 } else { (method.location.start_line - 1) as usize };
    let end: usize = method.location.end_line as usize;
    if start >= lines.len() || end > lines.len() || start >= end {
        return Err(AppError::Source("method source range is no longer valid; refresh the graph first".to_owned()));
    }
    let replacement = lines_of(code);
    let mut next_lines: Vec<String> = Vec::new();
    assert(next_lines.deep_view() =~= Seq::<Seq<char>>::empty());
    append_strings(&mut next_lines, &lines, 0, start);
    append_strings(&mut next_lines, &replacement, 0, replacement.len());
    append_strings(&mut next_lines, &lines, end, lines.len());
    assert(replacement.deep_view().subrange(0, replacement.len() as int) =~= replacement.deep_view());
    assert(next_lines.deep_view() =~= lines.deep_view().subrange(0, start as int) + replacement.deep_view() + lines.deep_view().subrange(end as int, lines.len() as int));
    assert(next_lines.deep_view().subrange(0, next_lines.len() as int) =~= next_lines.deep_view());
    let mut text = join_range(&next_lines, 0, next_lines.len(), "\n");
    let src = chars_of(source);
    if src.len() > 0 && src[src.len() - 1] == '\n' {
        text.push('\n');
    }
    Ok(string_from_chars(text.as_slice()))
}

/// The lines of the file `source` once lines `start..end` (0-based) are
/// replaced with the lines of `code`.
pub open spec fn saved_lines(source: Seq<char>, start: int, end: int, code: Seq<char>) -> Seq<Seq<char>> {
    let lines = split_lines(source);
    lines.subrange(0, start) + split_lines(code) + lines.subrange(end, lines.len() as int)
}

/// `s` ends with `'\n'`.
pub open spec fn ends_with_newline(s: Seq<char>) -> bool {
    s.len() > 0 && s.last() == '\n'
}

/// Saving the source that was just read leaves the file as it was: for a
/// method whose span fits the file, replacing the span with the code read
/// from it gives back the file text, byte for byte. This holds whenever the
/// file has no `"\r\n"` (saving writes lines joined with `'\n'`) and the
/// span's last line is not empty (reading joins the span's lines, and a
/// final empty line does not come back as a line).
pub proof fn lemma_save_what_was_read(method: MethodNode, source: Seq<char>)
    requires
        !span_invalid(split_lines(source), span_start(method.location.start_line), method.location.end_line as int),
        has_no_crlf(source),
        split_lines(source)[method.location.end_line - 1].len() > 0,
    ensures
        ({
            let start = span_start(method.location.start_line);
            let end = method.location.end_line as int;
            replaced_source(source, start, end, span_code(split_lines(source), start, end)) == source
        }),
{
    let start = span_start(method.location.start_line);
    let end = method.location.end_line as int;
    let lines = split_lines(source);
    let m = lines.subrange(start, end);
    lemma_split_lines_no_newline(source);
    lemma_split_lines_no_cr(source);
    assert forall|i: int| 0 <= i < m.len() implies has_no_newline(#[trigger] m[i]) by {
        assert(m[i] == lines[start + i]);
    }
    assert forall|i: int| 0 <= i < m.len() && ends_with_cr(#[trigger] m[i]) implies (i == m.len() - 1 && !false) by {
        assert(m[i] == lines[start + i]);
    }
    assert(m.last() == lines[end - 1]);
    lemma_split_join(m, false);
    assert(saved_lines(source, start, end, join(m, "\n"@)) =~= lines);
    lemma_join_split_lines(source);
}

/// Saving a method's source replaces exactly its lines: the saved file's
/// lines are the lines before the method's span, the lines of the new code,
/// and the lines after the span. So reading back as many lines as the code
/// has, from where the method starts, gives the code's lines joined with
/// `'\n'`. This holds whenever the new lines survive being joined and split
/// again (no line followed by a `'\n'` ends with a carriage return, and the
/// file does not end in an empty line without a final `'\n'`).
pub proof fn lemma_save_then_read(method: MethodNode, source: Seq<char>, code: Seq<char>)
    requires
        !span_invalid(split_lines(source), span_start(method.location.start_line), method.location.end_line as int),
        lines_survive_join(
            saved_lines(source, span_start(method.location.start_line), method.location.end_line as int, code),
            ends_with_newline(source),
        ),
    ensures
        ({
            let start = span_start(method.location.start_line);
            let end = method.location.end_line as int;
            let saved = split_lines(replaced_source(source, start, end, code));
            &&& saved == saved_lines(source, start, end, code)
            &&& span_code(saved, start, start + split_lines(code).len()) == join(split_lines(code), "\n"@)
        }),
{
    let start = span_start(method.location.start_line);
    let end = method.location.end_line as int;
    let lines = split_lines(source);
    let cl = split_lines(code);
    let nl = saved_lines(source, start, end, code);
    lemma_split_lines_no_newline(source);
    lemma_split_lines_no_newline(code);
    assert forall|i: int| 0 <= i < nl.len() implies has_no_newline(#[trigger] nl[i]) by {
        if i < start {
            assert(nl[i] == lines[i]);
        } else if i < start + cl.len() {
            assert(nl[i] == cl[i - start]);
        } else {
            assert(nl[i] == lines[i - start - cl.len() + end]);
        }
    }
    lemma_split_join(nl, ends_with_newline(source));
    assert(nl.subrange(start, start + cl.len()) =~= cl);
}

// ---------------------------------------------------------------------------
// Project identifiers, display names and relevant changes
// ---------------------------------------------------------------------------

/// The identifier of a project first opened at `now`, whose path hashes to
/// `hash`: `project-<now>-<hash>`.
pub open spec fn project_id_spec(now: int, hash: nat) -> Seq<char> {
    "project-"@ + signed_decimal(now) + "-"@ + decimal(hash)
}

/// The identifier of a project first opened at `now` whose path hashes to
/// `hash`.
pub fn new_project_id(now: i64, hash: u64) -> (s: String)
    ensures
        s@ == project_id_spec(now as int, hash as nat),
{
    let mut out: Vec<char> = Vec::new();
    push_str(&mut out, "project-");
    push_signed_decimal(&mut out, now);
    push_str(&mut out, "-");
    push_decimal(&mut out, hash);
    string_from_chars(out.as_slice())
}

/// The stem of a file name, as `Path::file_stem` gives it: the part before
/// the last `'.'`, or the whole name for `".."`, for names without a `'.'`
/// and for names whose only `'.'` is their first character.
pub open spec fn file_stem_spec(name: Seq<char>) -> Seq<char> {
    if name == seq!['.', '.'] {
        name
    } else if exists|k: int| is_last_index(name, '.', k) {
        let k = choose|k: int| is_last_index(name, '.', k);
        if k == 0 {
            name
        } else {
            name.subrange(0, k)
        }
    } else {
        name
    }
}

/// The name shown for a project whose path has the file name `file_name`:
/// its stem, or `Untitled project` without a file name.
pub open spec fn project_display_name_spec(file_name: Option<Seq<char>>) -> Seq<char> {
    match file_name {
        Some(n) => file_stem_spec(n),
        None => "Untitled project"@,
    }
}

/// The name shown for a project whose path has the file name `file_name`.
pub fn project_display_name(file_name: Option<&str>) -> (s: String)
    ensures
        s@ == project_display_name_spec(match file_name {
            Some(n) => Some(n@),
            None => None,
        }),
{
    match file_name {
        None => "Untitled project".to_owned(),
        Some(name) => {
            let v = chars_of(name);
            if v.len() == 2 && v[0] == '.' && v[1] == '.' {
                assert(v@ =~= seq!['.', '.']);
                return name.to_owned();
            }
            assert(v@ != seq!['.', '.']);
            match rfind_char(&v, '.') {
                Some(k) => {
                    proof {
                        assert(is_last_index(v@, '.', k as int));
                        let c = choose|c: int| is_last_index(v@, '.', c);
                        if c < k {
                            assert(v@[k as int] != '.');
                        } else if k < c {
                            assert(v@[c] != '.');
                        }
                    }
                    if k == 0 {
                        name.to_owned()
                    } else {
                        string_from_chars(subvec(&v, 0, k).as_slice())
                    }
                },
                None => {
                    assert(!exists|k: int| is_last_index(v@, '.', k));
                    name.to_owned()
                },
            }
        },
    }
}

/// A path touched by a file-system event: its components and its extension.
#[derive(Debug, Clone)]
pub struct ChangedPath {
    pub components: Vec<String>,
    pub extension: Option<String>,
}

/// A file-system event: whether it is a mere access, and the paths it
/// touched.
#[derive(Debug, Clone)]
pub struct ChangeEvent {
    pub is_access: bool,
    pub paths: Vec<ChangedPath>,
}

/// A path component that marks build output or version control.
pub open spec fn is_ignored_component(c: Seq<char>) -> bool {
    c == ".git"@ || c == "bin"@ || c == "obj"@
}

/// An extension of a file that can change the graph.
pub open spec fn is_source_extension(e: Seq<char>) -> bool {
    e == "cs"@ || e == "csproj"@ || e == "sln"@ || e == "props"@ || e == "targets"@
}

/// A path whose change matters: no ignored component, and a source
/// extension.
pub open spec fn is_relevant_path(p: ChangedPath) -> bool {
    &&& forall|i: int| 0 <= i < p.components@.len() ==> !is_ignored_component(#[trigger] p.components@[i]@)
    &&& match p.extension {
        Some(e) => is_source_extension(e@),
        None => false,
    }
}

/// An event that should trigger a refresh: not a mere access, and touching
/// at least one relevant path.
pub open spec fn is_relevant_change_spec(e: ChangeEvent) -> bool {
    !e.is_access && exists|i: int| 0 <= i < e.paths@.len() && is_relevant_path(#[trigger] e.paths@[i])
}

fn is_relevant_path_exec(p: &ChangedPath) -> (b: bool)
    ensures
        b == is_relevant_path(*p),
{
    let n = p.components.len();
    for i in 0..n
        invariant
            n == p.components.len(),
            forall|j: int| 0 <= j < i ==> !is_ignored_component(#[trigger] p.components@[j]@),
    {
        let c = chars_of(p.components[i].as_str());
        if chars_eq_str(&c, ".git") || chars_eq_str(&c, "bin") || chars_eq_str(&c, "obj") {
            return false;
        }
    }
    match &p.extension {
        None => false,
        Some(e) => {
            let c = chars_of(e.as_str());
            chars_eq_str(&c, "cs") || chars_eq_str(&c, "csproj") || chars_eq_str(&c, "sln")
                || chars_eq_str(&c, "props") || chars_eq_str(&c, "targets")
        },
    }
}

/// A change is relevant exactly when it is not a mere access and touches a
/// path with none of the components `.git`, `bin` or `obj` whose extension
/// is `cs`, `csproj`, `sln`, `props` or `targets`.
pub proof fn lemma_relevant_change(e: ChangeEvent)
    ensures
        is_relevant_change_spec(e) <==> (!e.is_access && exists|i: int| 0 <= i < e.paths@.len() && {
            let p = #[trigger] e.paths@[i];
            &&& forall|j: int| 0 <= j < p.components@.len() ==> {
                let c = (#[trigger] p.components@[j])@;
                c != ".git"@ && c != "bin"@ && c != "obj"@
            }
            &&& match p.extension {
                Some(x) => x@ == "cs"@ || x@ == "csproj"@ || x@ == "sln"@ || x@ == "props"@ || x@ == "targets"@,
                None => false,
            }
        }),
{
}

/// Whether a file-system event should trigger a refresh.
pub fn is_relevant_change(event: &ChangeEvent) -> (b: bool)
    ensures
        b == is_relevant_change_spec(*event),
{
    if event.is_access {
        return false;
    }
    let n = event.paths.len();
    for i in 0..n
        invariant
            n == event.paths.len(),
            !event.is_access,
            forall|j: int| 0 <= j < i ==> !is_relevant_path(#[trigger] event.paths@[j]),
    {
        if is_relevant_path_exec(&event.paths[i]) {
            assert(is_relevant_path(event.paths@[i as int]));
            return true;
        }
    }
    false
}

// ---------------------------------------------------------------------------
// Open graphs
// ---------------------------------------------------------------------------

/// `i` is the position of project `pid`'s graph in `gs`.
pub open spec fn is_graph_of(gs: Seq<LoadedGraph>, pid: Seq<char>, i: int) -> bool {
    0 <= i < gs.len() && gs[i].project_id@ == pid
}

/// No two graphs belong to the same project.
pub open spec fn unique_projects(gs: Seq<LoadedGraph>) -> bool {
    forall|i: int, j: int| 0 <= i < j < gs.len() ==> (#[trigger] gs[i]).project_id@ != (#[trigger] gs[j]).project_id@
}

/// The graph open for project `pid`, if any.
pub open spec fn lookup_graph(gs: Seq<LoadedGraph>, pid: Seq<char>) -> Option<LoadedGraphView> {
    if exists|i: int| is_graph_of(gs, pid, i) {
        Some(gs[choose|i: int| is_graph_of(gs, pid, i)]@)
    } else {
        None
    }
}

proof fn lemma_lookup_at(gs: Seq<LoadedGraph>, pid: Seq<char>, i: int)
    requires
        unique_projects(gs),
        is_graph_of(gs, pid, i),
    ensures
        lookup_graph(gs, pid) == Some(gs[i]@),
{
    let c = choose|c: int| is_graph_of(gs, pid, c);
    if c < i {
        assert(gs[c].project_id@ != gs[i].project_id@);
    } else if i < c {
        assert(gs[i].project_id@ != gs[c].project_id@);
    }
}

/// The file text that `files` gives for `path`: the first entry for that
/// path; nothing when there is none or it could not be read.
pub open spec fn file_text(files: Seq<(String, Option<String>)>, path: Seq<char>) -> Option<Seq<char>>
    decreases files.len(),
{
    if files.len() == 0 {
        None
    } else if files[0].0@ == path {
        opt_view(files[0].1)
    } else {
        file_text(files.drop_first(), path)
    }
}

/// The matching lines of `m`'s span in its file.
pub open spec fn method_hits(m: MethodNode, files: Seq<(String, Option<String>)>, needle: Seq<char>) -> Seq<(u32, Seq<char>)> {
    match file_text(files, m.file_path@) {
        None => seq![],
        Some(t) => find_line_matches_spec(
            split_lines(t),
            lowered_lines(split_lines(t)),
            m.location.start_line,
            m.location.end_line,
            needle,
            MAX_SEARCH_LINES_PER_METHOD as nat,
        ),
    }
}

/// The matches of a search over the methods `ms`, in order: each method's
/// matching lines, until `MAX_SEARCH_RESULTS` matches are collected.
pub open spec fn search_over(ms: Seq<MethodNode>, files: Seq<(String, Option<String>)>, needle: Seq<char>) -> Seq<SearchHit>
    decreases ms.len(),
{
    if ms.len() == 0 {
        seq![]
    } else {
        let out = search_over(ms.drop_last(), files, needle);
        let m = ms.last();
        let hits = method_hits(m, files, needle).map_values(
            |h: (u32, Seq<char>)| SearchHit { method: m, line_number: h.0, line_text: h.1 },
        );
        if out.len() >= MAX_SEARCH_RESULTS {
            out
        } else if hits.len() <= MAX_SEARCH_RESULTS - out.len() {
            out + hits
        } else {
            out + hits.take(MAX_SEARCH_RESULTS - out.len())
        }
    }
}

/// The matches of searching for the lowercase needle `needle` given the
/// open graph `graph`: none for an empty needle, `None` when the project is
/// not open, else the matches over its methods ordered by display name.
pub open spec fn search_lowered_spec(
    graph: Option<LoadedGraphView>,
    needle: Seq<char>,
    files: Seq<(String, Option<String>)>,
) -> Option<Seq<SearchHit>> {
    if needle.len() == 0 {
        Some(seq![])
    } else {
        match graph {
            None => None,
            Some(l) => Some(search_over(sort_by_display(l.graph.methods), files, needle)),
        }
    }
}

/// The matches of searching for `query` given the open graph `graph`: none
/// for a blank query, `None` when the project is not open, else the matches
/// of the query trimmed and lowercased over its methods ordered by display
/// name.
pub open spec fn search_spec(
    graph: Option<LoadedGraphView>,
    query: Seq<char>,
    files: Seq<(String, Option<String>)>,
) -> Option<Seq<SearchHit>> {
    if trim(query).len() == 0 {
        Some(seq![])
    } else {
        match graph {
            None => None,
            Some(l) => Some(search_over(sort_by_display(l.graph.methods), files, lowercase(trim(query)))),
        }
    }
}

/// `after` is `before` with project `pid` closed: its graph is gone, every
/// other project keeps its graph, and the resource directory is kept.
pub open spec fn closes(before: GraphService, after: GraphService, pid: Seq<char>) -> bool {
    &&& after.inv()
    &&& after.open_graph(pid) is None
    &&& forall|q: Seq<char>| q != pid ==> #[trigger] after.open_graph(q) == before.open_graph(q)
    &&& after.resource_dir() == before.resource_dir()
}

/// After a project is closed, it is not open: `method`, `callers` and
/// `callees` on it answer `ProjectNotOpen`, and so does a search with a
/// query that is not blank, while a blank query finds nothing. Every other
/// project keeps its graph, and closing a project that is not open changes
/// no project's graph.
pub proof fn lemma_close_project(
    before: GraphService,
    after: GraphService,
    pid: Seq<char>,
    query: Seq<char>,
    files: Seq<(String, Option<String>)>,
)
    requires
        before.inv(),
        closes(before, after, pid),
    ensures
        after.open_graph(pid) is None,
        search_spec(after.open_graph(pid), query, files) == if trim(query).len() == 0 {
            Some(Seq::<SearchHit>::empty())
        } else {
            None::<Seq<SearchHit>>
        },
        forall|q: Seq<char>| q != pid ==> #[trigger] after.open_graph(q) == before.open_graph(q),
        before.open_graph(pid) is None ==> forall|q: Seq<char>| #[trigger] after.open_graph(q) == before.open_graph(q),
{
    if before.open_graph(pid) is None {
        assert forall|q: Seq<char>| #[trigger] after.open_graph(q) == before.open_graph(q) by {
            if q != pid {
            }
        }
    }
}

/// The view of a search result.
pub open spec fn search_view(r: Result<Vec<SearchMatch>, AppError>) -> Result<Seq<SearchHit>, AppError> {
    match r {
        Ok(v) => Ok(v@.map_values(|m: SearchMatch| m@)),
        Err(e) => Err(e),
    }
}

fn file_text_of<'a>(files: &'a Vec<(String, Option<String>)>, path: &str) -> (r: Option<&'a String>)
    ensures
        match r {
            Some(t) => file_text(files@, path@) == Some(t@),
            None => file_text(files@, path@) is None,
        },
{
    let n = files.len();
    let mut i: usize = 0;
    assert(files@.subrange(0, n as int) =~= files@);
    while i < n
        invariant
            n == files.len(),
            i <= n,
            file_text(files@, path@) == file_text(files@.subrange(i as int, n as int), path@),
        decreases n - i,
    {
        let ghost rest = files@.subrange(i as int, n as int);
        assert(rest[0] == files@[i as int]);
        if str_eq(files[i].0.as_str(), path) {
            return match &files[i].1 {
                Some(t) => Some(t),
                None => None,
            };
        }
        assert(rest.drop_first() =~= files@.subrange(i + 1, n as int));
        i = i + 1;
    }
    None
}

/// The graphs open in the service, one per project, and the resource
/// directory that analyzers are made with.
pub struct GraphService {
    graphs: Vec<LoadedGraph>,
    resource_dir: Option<String>,
}

impl GraphService {
    /// The service's invariant: one graph per project.
    pub closed spec fn inv(&self) -> bool {
        unique_projects(self.graphs@)
    }

    /// The graph open for project `pid`, if any.
    pub closed spec fn open_graph(&self, pid: Seq<char>) -> Option<LoadedGraphView> {
        lookup_graph(self.graphs@, pid)
    }

    /// The resource directory analyzers are made with.
    pub closed spec fn resource_dir(&self) -> Option<String> {
        self.resource_dir
    }

    /// A service with no open graph and no resource directory.
    pub fn new() -> (s: Self)
        ensures
            s.inv(),
            forall|pid: Seq<char>| #[trigger] s.open_graph(pid) is None,
            s.resource_dir() is None,
    {
        GraphService { graphs: Vec::new(), resource_dir: None }
    }

    /// Remember the installed app's resource directory.
    pub fn set_resource_dir(&mut self, dir: Option<String>)
        requires
            old(self).inv(),
        ensures
            final(self).inv(),
            final(self).resource_dir() == dir,
            forall|pid: Seq<char>| #[trigger] final(self).open_graph(pid) == old(self).open_graph(pid),
    {
        self.resource_dir = dir;
    }

    /// The analyzer to load projects with: one that looks inside the
    /// resource directory when there is one.
    pub fn analyzer(&self) -> (a: CSharpAnalyzer)
        ensures
            a.resource_dir() == self.resource_dir(),
    {
        match &self.resource_dir {
            Some(d) => CSharpAnalyzer::with_resource_dir(d.clone()),
            None => CSharpAnalyzer::new(),
        }
    }

    fn index_of_project(&self, pid: &str) -> (r: Option<usize>)
        requires
            self.inv(),
        ensures
            match r {
                Some(i) => is_graph_of(self.graphs@, pid@, i as int) && self.open_graph(pid@) == Some(self.graphs@[i as int]@),
                None => self.open_graph(pid@) is None && forall|j: int| !is_graph_of(self.graphs@, pid@, j),
            },
    {
        let n = self.graphs.len();
        for i in 0..n
            invariant
                n == self.graphs.len(),
                unique_projects(self.graphs@),
                forall|j: int| 0 <= j < i ==> !is_graph_of(self.graphs@, pid@, j),
        {
            if str_eq(self.graphs[i].project_id.as_str(), pid) {
                proof {
                    lemma_lookup_at(self.graphs@, pid@, i as int);
                }
                return Some(i);
            }
        }
        None
    }

    /// The graph open for project `pid`, or `ProjectNotOpen`.
    pub fn current(&self, pid: &str) -> (r: Result<&LoadedGraph, AppError>)
        requires
            self.inv(),
        ensures
            match self.open_graph(pid@) {
                Some(v) => r matches Ok(l) && l@ == v,
                None => r matches Err(AppError::ProjectNotOpen(s)) && s@ == pid@,
            },
    {
        match self.index_of_project(pid) {
            Some(i) => Ok(&self.graphs[i]),
            None => Err(AppError::ProjectNotOpen(pid.to_owned())),
        }
    }

    /// A copy of the graph open for project `pid`, if any.
    pub fn cached_graph(&self, pid: &str) -> (r: Option<LoadedGraph>)
        requires
            self.inv(),
        ensures
            match self.open_graph(pid@) {
                Some(v) => r matches Some(l) && l@ == v,
                None => r is None,
            },
    {
        match self.index_of_project(pid) {
            Some(i) => Some(self.graphs[i].duplicate()),
            None => None,
        }
    }

    /// Keep `loaded` as the graph of its project, replacing any earlier one;
    /// returns a copy of it.
    pub fn store_graph(&mut self, loaded: LoadedGraph) -> (r: LoadedGraph)
        requires
            old(self).inv(),
        ensures
            final(self).inv(),
            r@ == loaded@,
            final(self).open_graph(loaded.project_id@) == Some(loaded@),
            forall|pid: Seq<char>| pid != loaded.project_id@ ==> #[trigger] final(self).open_graph(pid) == old(self).open_graph(pid),
            final(self).resource_dir() == old(self).resource_dir(),
    {
        let copy = loaded.duplicate();
        let ghost old_gs = self.graphs@;
        let ghost id = loaded.project_id@;
        match self.index_of_project(loaded.project_id.as_str()) {
            Some(i) => {
                self.graphs.set(i, loaded);
                proof {
                    let gs = self.graphs@;
                    assert forall|a: int, b: int| 0 <= a < b < gs.len() implies (#[trigger] gs[a]).project_id@ != (#[trigger] gs[b]).project_id@ by {
                        assert(old_gs[a].project_id@ != old_gs[b].project_id@);
                    }
                    lemma_lookup_at(gs, id, i as int);
                    assert forall|pid: Seq<char>| pid != id implies #[trigger] lookup_graph(gs, pid) == lookup_graph(old_gs, pid) by {
                        if exists|k: int| is_graph_of(old_gs, pid, k) {
                            let k = choose|k: int| is_graph_of(old_gs, pid, k);
                            assert(is_graph_of(gs, pid, k));
                            lemma_lookup_at(gs, pid, k);
                            lemma_lookup_at(old_gs, pid, k);
                        } else {
                            assert forall|k: int| !is_graph_of(gs, pid, k) by {
                                if is_graph_of(gs, pid, k) {
                                    assert(is_graph_of(old_gs, pid, k));
                                }
                            }
                        }
                    }
                }
            },
            None => {
                self.graphs.push(loaded);
                proof {
                    let gs = self.graphs@;
                    let n = old_gs.len() as int;
                    assert forall|a: int, b: int| 0 <= a < b < gs.len() implies (#[trigger] gs[a]).project_id@ != (#[trigger] gs[b]).project_id@ by {
                        if b == n {
                            assert(!is_graph_of(old_gs, id, a));
                        } else {
                            assert(old_gs[a].project_id@ != old_gs[b].project_id@);
                        }
                    }
                    lemma_lookup_at(gs, id, n);
                    assert forall|pid: Seq<char>| pid != id implies #[trigger] lookup_graph(gs, pid) == lookup_graph(old_gs, pid) by {
                        if exists|k: int| is_graph_of(old_gs, pid, k) {
                            let k = choose|k: int| is_graph_of(old_gs, pid, k);
                            assert(is_graph_of(gs, pid, k));
                            lemma_lookup_at(gs, pid, k);
                            lemma_lookup_at(old_gs, pid, k);
                        } else {
                            assert forall|k: int| !is_graph_of(gs, pid, k) by {
                                if is_graph_of(gs, pid, k) {
                                    assert(is_graph_of(old_gs, pid, k));
                                }
                            }
                        }
                    }
                }
            },
        }
        copy
    }

    /// Forget the graph of project `pid`.
    pub fn close_project(&mut self, pid: &str)
        requires
            old(self).inv(),
        ensures
            closes(*old(self), *final(self), pid@),
    {
        let ghost old_gs = self.graphs@;
        match self.index_of_project(pid) {
            Some(i) => {
                self.graphs.remove(i);
                proof {
                    let gs = self.graphs@;
                    assert forall|a: int, b: int| 0 <= a < b < gs.len() implies (#[trigger] gs[a]).project_id@ != (#[trigger] gs[b]).project_id@ by {
                        let oa = if a < i { a } else { a + 1 };
                        let ob = if b < i { b } else { b + 1 };
                        assert(gs[a] == old_gs[oa] && gs[b] == old_gs[ob]);
                        assert(old_gs[oa].project_id@ != old_gs[ob].project_id@);
                    }
                    assert forall|k: int| !is_graph_of(gs, pid@, k) by {
                        if is_graph_of(gs, pid@, k) {
                            let ok = if k < i { k } else { k + 1 };
                            assert(gs[k] == old_gs[ok]);
                            assert(old_gs[ok].project_id@ != old_gs[i as int].project_id@);
                        }
                    }
                    assert forall|q: Seq<char>| q != pid@ implies #[trigger] lookup_graph(gs, q) == lookup_graph(old_gs, q) by {
                        if exists|k: int| is_graph_of(old_gs, q, k) {
                            let k = choose|k: int| is_graph_of(old_gs, q, k);
                            assert(k != i);
                            let nk = if k < i { k } else { k - 1 };
                            assert(gs[nk] == old_gs[k]);
                            lemma_lookup_at(gs, q, nk);
                            lemma_lookup_at(old_gs, q, k);
                        } else {
                            assert forall|k: int| !is_graph_of(gs, q, k) by {
                                if is_graph_of(gs, q, k) {
                                    let ok = if k < i { k } else { k + 1 };
                                    assert(gs[k] == old_gs[ok]);
                                    assert(is_graph_of(old_gs, q, ok));
                                }
                            }
                        }
                    }
                }
            },
            None => {},
        }
    }

    /// The method `id` of project `pid`.
    pub fn method(&self, pid: &str, id: &MethodId) -> (r: Result<MethodNode, AppError>)
        requires
            self.inv(),
        ensures
            match self.open_graph(pid@) {
                None => r matches Err(AppError::ProjectNotOpen(s)) && s@ == pid@,
                Some(l) => match l.graph.lookup(id@) {
                    Some(n) => r == Ok::<MethodNode, AppError>(n),
                    None => r matches Err(AppError::MethodNotFound(s)) && s@ == id@,
                },
            },
    {
        let loaded = self.current(pid)?;
        match loaded.graph.get_method(id) {
            Some(n) => Ok(n.duplicate()),
            None => Err(AppError::MethodNotFound(id.0.clone())),
        }
    }

    /// The callers of method `id` in project `pid`, ordered by display name.
    pub fn callers(&self, pid: &str, id: &MethodId) -> (r: Result<Vec<MethodNode>, AppError>)
        requires
            self.inv(),
        ensures
            match self.open_graph(pid@) {
                None => r matches Err(AppError::ProjectNotOpen(s)) && s@ == pid@,
                Some(l) => r matches Ok(v) && v@ == sort_by_display(l.graph.callers(id@)),
            },
    {
        let loaded = self.current(pid)?;
        let refs = loaded.graph.callers_of(id);
        let nodes = copy_nodes(&refs);
        Ok(sort_nodes_by_display(nodes))
    }

    /// The callees of method `id` in project `pid`, ordered by display name.
    pub fn callees(&self, pid: &str, id: &MethodId) -> (r: Result<Vec<MethodNode>, AppError>)
        requires
            self.inv(),
        ensures
            match self.open_graph(pid@) {
                None => r matches Err(AppError::ProjectNotOpen(s)) && s@ == pid@,
                Some(l) => r matches Ok(v) && v@ == sort_by_display(l.graph.callees(id@)),
            },
    {
        let loaded = self.current(pid)?;
        let refs = loaded.graph.callees_of(id);
        let nodes = copy_nodes(&refs);
        Ok(sort_nodes_by_display(nodes))
    }

    /// The file paths of the methods of project `pid`, in node order; empty
    /// when the project is not open.
    pub fn source_files(&self, pid: &str) -> (r: Vec<String>)
        requires
            self.inv(),
        ensures
            match self.open_graph(pid@) {
                None => r@.len() == 0,
                Some(l) => r.deep_view() == l.graph.methods.map_values(|m: MethodNode| m.file_path@),
            },
    {
        let mut out: Vec<String> = Vec::new();
        match self.current(pid) {
            Err(_) => out,
            Ok(loaded) => {
                let ms = &loaded.graph.methods;
                let n = ms.len();
                for i in 0..n
                    invariant
                        n == ms.len(),
                        out.deep_view() == ms@.take(i as int).map_values(|m: MethodNode| m.file_path@),
                {
                    let ghost before = out.deep_view();
                    out.push(ms[i].file_path.clone());
                    assert(out.deep_view() =~= before.push(ms@[i as int].file_path@));
                    assert(ms@.take(i + 1).map_values(|m: MethodNode| m.file_path@) =~= ms@.take(i as int).map_values(|m: MethodNode| m.file_path@).push(ms@[i as int].file_path@));
                }
                assert(ms@.take(n as int) =~= ms@);
                out
            },
        }
    }

    /// Case-insensitive search of `query` over the source spans of project
    /// `pid`'s methods. `files` holds the text of each method's file (none
    /// when it could not be read; such methods are skipped). Returns one
    /// match per matching line, ordered by method display name then line.
    pub fn search_methods(&self, pid: &str, query: &str, files: &Vec<(String, Option<String>)>) -> (r: Result<Vec<SearchMatch>, AppError>)
        requires
            self.inv(),
        ensures
            match search_spec(self.open_graph(pid@), query@, files@) {
                Some(hits) => search_view(r) == Ok::<Seq<SearchHit>, AppError>(hits),
                None => r matches Err(AppError::ProjectNotOpen(s)) && s@ == pid@,
            },
    {
        let trimmed = trim_str(query);
        let needle = to_lowercase(trimmed.as_str());
        self.search_lowered(pid, needle.as_str(), files)
    }

    /// Search for `needle`, already trimmed and lowercased, over the source
    /// spans of project `pid`'s methods. `files` holds the text of each
    /// method's file (none when it could not be read; such methods are
    /// skipped). Returns one match per matching line, ordered by method
    /// display name then line.
    pub fn search_lowered(&self, pid: &str, needle: &str, files: &Vec<(String, Option<String>)>) -> (r: Result<Vec<SearchMatch>, AppError>)
        requires
            self.inv(),
        ensures
            match search_lowered_spec(self.open_graph(pid@), needle@, files@) {
                Some(hits) => search_view(r) == Ok::<Seq<SearchHit>, AppError>(hits),
                None => r matches Err(AppError::ProjectNotOpen(s)) && s@ == pid@,
            },
    {
        if needle.unicode_len() == 0 {
            let out: Vec<SearchMatch> = Vec::new();
            assert(out@.map_values(|m: SearchMatch| m@) =~= Seq::<SearchHit>::empty());
            return Ok(out);
        }
        let loaded = self.current(pid)?;
        let nodes = copy_node_vec(&loaded.graph.methods);
        let order = sort_nodes_by_display(nodes);
        let ghost ms = order@;
        let mut out: Vec<SearchMatch> = Vec::new();
        let n = order.len();
        for i in 0..n
            invariant
                n == order.len(),
                ms == order@,
                out@.map_values(|m: SearchMatch| m@) == search_over(ms.take(i as int), files@, needle@),
                out.len() <= MAX_SEARCH_RESULTS,
        {
            assert(ms.take(i + 1).drop_last() =~= ms.take(i as int));
            let m = &order[i];
            if out.len() < MAX_SEARCH_RESULTS {
                append_method_hits(&mut out, m, files, needle);
            } else {
                assert(out@.map_values(|x: SearchMatch| x@) == search_over(ms.take(i + 1), files@, needle@));
            }
        }
        assert(ms.take(n as int) =~= ms);
        Ok(out)
    }
}

fn copy_nodes(refs: &Vec<&MethodNode>) -> (r: Vec<MethodNode>)
    ensures
        r@ == refs@.map_values(|x: &MethodNode| *x),
{
    let mut out: Vec<MethodNode> = Vec::new();
    let n = refs.len();
    for i in 0..n
        invariant
            n == refs.len(),
            out@ == refs@.take(i as int).map_values(|x: &MethodNode| *x),
    {
        out.push(refs[i].duplicate());
        assert(out@ =~= refs@.take(i + 1).map_values(|x: &MethodNode| *x));
    }
    assert(refs@.take(n as int) =~= refs@);
    out
}

fn copy_node_vec(nodes: &Vec<MethodNode>) -> (r: Vec<MethodNode>)
    ensures
        r@ == nodes@,
{
    let mut out: Vec<MethodNode> = Vec::new();
    let n = nodes.len();
    for i in 0..n
        invariant
            n == nodes.len(),
            out@ == nodes@.take(i as int),
    {
        out.push(nodes[i].duplicate());
        assert(out@ =~= nodes@.take(i + 1));
    }
    assert(nodes@.take(n as int) =~= nodes@);
    out
}

/// Append the matches of `m`'s span to `out`, up to `MAX_SEARCH_RESULTS`
/// matches in all.
fn append_method_hits(out: &mut Vec<SearchMatch>, m: &MethodNode, files: &Vec<(String, Option<String>)>, needle: &str)
    requires
        old(out).len() < MAX_SEARCH_RESULTS,
    ensures
        final(out).len() <= MAX_SEARCH_RESULTS,
        ({
            let before = old(out)@.map_values(|x: SearchMatch| x@);
            let hits = method_hits(*m, files@, needle@).map_values(
                |h: (u32, Seq<char>)| SearchHit { method: *m, line_number: h.0, line_text: h.1 },
            );
            final(out)@.map_values(|x: SearchMatch| x@) == if hits.len() <= MAX_SEARCH_RESULTS - before.len() {
                before + hits
            } else {
                before + hits.take(MAX_SEARCH_RESULTS - before.len())
            }
        }),
{
    let ghost before = out@.map_values(|x: SearchMatch| x@);
    let ghost hits = method_hits(*m, files@, needle@).map_values(
        |h: (u32, Seq<char>)| SearchHit { method: *m, line_number: h.0, line_text: h.1 },
    );
    let text = match file_text_of(files, m.file_path.as_str()) {
        Some(t) => t,
        None => {
            assert(hits =~= Seq::<SearchHit>::empty());
            assert(out@.map_values(|x: SearchMatch| x@) =~= before + hits);
            return;
        },
    };
    let lines = lines_of(text.as_str());
    let mut refs: Vec<&str> = Vec::new();
    let nl = lines.len();
    for i in 0..nl
        invariant
            nl == lines.len(),
            lines_view(refs@) == lines.deep_view().take(i as int),
    {
        let ghost before = refs@;
        let line = lines[i].as_str();
        refs.push(line);
        assert(refs@ == before.push(line));
        assert(lines.deep_view()[i as int] == lines@[i as int]@);
        assert(lines_view(refs@) =~= lines_view(before).push(line@));
        assert(lines.deep_view().take(i + 1) =~= lines.deep_view().take(i as int).push(lines.deep_view()[i as int]));
    }
    assert(lines.deep_view().take(nl as int) =~= lines.deep_view());
    let found = find_line_matches(refs.as_slice(), m.location.start_line, m.location.end_line, needle, MAX_SEARCH_LINES_PER_METHOD);
    assert(hits_view(found@) == method_hits(*m, files@, needle@));
    let k = found.len();
    let mut j: usize = 0;
    while j < k && out.len() < MAX_SEARCH_RESULTS
        invariant
            k == found.len(),
            j <= k,
            hits.len() == k,
            hits == hits_view(found@).map_values(|h: (u32, Seq<char>)| SearchHit { method: *m, line_number: h.0, line_text: h.1 }),
            out.len() <= MAX_SEARCH_RESULTS,
            out.len() == before.len() + j,
            out@.map_values(|x: SearchMatch| x@) == before + hits.take(j as int),
        decreases k - j,
    {
        let ghost prev = out@.map_values(|x: SearchMatch| x@);
        out.push(SearchMatch { method: m.duplicate(), line_number: found[j].0, line_text: found[j].1.clone() });
        assert(hits[j as int] == SearchHit { method: *m, line_number: found@[j as int].0, line_text: found@[j as int].1@ });
        assert(out@.map_values(|x: SearchMatch| x@) =~= prev.push(hits[j as int]));
        assert(hits.take(j + 1) =~= hits.take(j as int).push(hits[j as int]));
        j = j + 1;
    }
    if j == k {
        assert(hits.take(k as int) =~= hits);
    }
}

} // verus!
