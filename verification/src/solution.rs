//! Reading .NET solutions and projects as plain text: which projects a
//! solution lists, which target framework a project declares, and which
//! file of a directory names the project to load.
use vstd::prelude::*;

use crate::text::{
    is_first_match, lemma_trim_idempotent, lemma_trim_within, matches_at, trim_start,
    ascii_lower_seq, chars_eq_str, chars_of, find_char, find_char_from, find_first,
    first_match, lemma_find_char_bounds, lemma_find_char_is, lines_of, matches_here, push_str,
    rfind_char, split_lines, starts_with, string_from_chars, subvec, to_ascii_lower_chars, trim,
    trim_chars,
};

verus! {

/// A project found inside a solution or standalone on disk: its path and,
/// when the project file declares one, its target framework.
#[derive(Debug, Clone)]
pub struct ProjectDescriptor {
    pub project_path: String,
    pub target_framework: Option<String>,
}

/// Reads .NET solutions and projects directly, without the `dotnet` SDK.
#[derive(Debug, Clone, Copy)]
pub struct SolutionLoader;

/// What a file is, judged by its extension (ASCII case ignored).
#[derive(Debug, Clone, Copy, PartialEq, Eq, Structural)]
pub enum ProjectFileKind {
    Solution,
    Project,
    Other,
}

/// The file to load from a directory.
#[derive(Debug, Clone, PartialEq, Eq)]
pub enum DirectoryPick {
    Solution(String),
    Project(String),
    Nothing,
}

/// Why discovering projects failed.
#[derive(Debug, Clone, PartialEq, Eq)]
pub enum DiscoverError {
    /// The input path does not exist.
    Missing(String),
    /// The directory holds no solution or project file.
    NoProjectFile(String),
    /// The input is neither a solution, a project nor a directory; its
    /// extension, if it has one.
    Unsupported(Option<String>),
    /// The solution could not be read.
    ReadSolution(String),
    /// The solution lists no C# project.
    NoProjects(String),
    /// Listing a directory failed; the system's message.
    Io(String),
}

impl DiscoverError {
    /// The error's message.
    pub open spec fn message_spec(self) -> Seq<char> {
        match self {
            DiscoverError::Missing(p) => "path does not exist: "@ + p@,
            DiscoverError::NoProjectFile(d) => "no .sln or .csproj found in directory "@ + d@,
            DiscoverError::Unsupported(e) => "unsupported input `"@ + match e {
                Some(x) => x@,
                None => "<no extension>"@,
            } + "` (expected .sln, .csproj, or a directory)"@,
            DiscoverError::ReadSolution(p) => "failed to read solution "@ + p@,
            DiscoverError::NoProjects(s) => "no .csproj projects found in solution "@ + s@,
            DiscoverError::Io(m) => m@,
        }
    }

    /// The error's message.
    pub fn message(&self) -> (s: String)
        ensures
            s@ == self.message_spec(),
    {
        let mut out: Vec<char> = Vec::new();
        match self {
            DiscoverError::Missing(p) => {
                push_str(&mut out, "path does not exist: ");
                push_str(&mut out, p.as_str());
            },
            DiscoverError::NoProjectFile(d) => {
                push_str(&mut out, "no .sln or .csproj found in directory ");
                push_str(&mut out, d.as_str());
            },
            DiscoverError::Unsupported(e) => {
                push_str(&mut out, "unsupported input `");
                match e {
                    Some(x) => push_str(&mut out, x.as_str()),
                    None => push_str(&mut out, "<no extension>"),
                }
                push_str(&mut out, "` (expected .sln, .csproj, or a directory)");
            },
            DiscoverError::ReadSolution(p) => {
                push_str(&mut out, "failed to read solution ");
                push_str(&mut out, p.as_str());
            },
            DiscoverError::NoProjects(s) => {
                push_str(&mut out, "no .csproj projects found in solution ");
                push_str(&mut out, s.as_str());
            },
            DiscoverError::Io(m) => {
                push_str(&mut out, m.as_str());
            },
        }
        string_from_chars(out.as_slice())
    }
}

// ---------------------------------------------------------------------------
// File names and extensions
// ---------------------------------------------------------------------------

/// `k` is the last position of `c` in `s`.
pub open spec fn is_last_index(s: Seq<char>, c: char, k: int) -> bool {
    &&& 0 <= k < s.len()
    &&& s[k] == c
    &&& forall|j: int| k < j < s.len() ==> s[j] != c
}

/// The extension of a file name, as `Path::extension` gives it: the part
/// after the last `'.'`, except for `".."` and for names whose only `'.'`
/// is their first character.
pub open spec fn extension_spec(name: Seq<char>) -> Option<Seq<char>> {
    if name == seq!['.', '.'] {
        None
    } else if exists|k: int| is_last_index(name, '.', k) {
        let k = choose|k: int| is_last_index(name, '.', k);
        if k == 0 {
            None
        } else {
            Some(name.subrange(k + 1, name.len() as int))
        }
    } else {
        None
    }
}

/// The kind of a file with the given name.
pub open spec fn kind_of_name(name: Option<Seq<char>>) -> ProjectFileKind {
    match name {
        None => ProjectFileKind::Other,
        Some(n) => match extension_spec(n) {
            None => ProjectFileKind::Other,
            Some(e) => if ascii_lower_seq(e) == "sln"@ {
                ProjectFileKind::Solution
            } else if ascii_lower_seq(e) == "csproj"@ {
                ProjectFileKind::Project
            } else {
                ProjectFileKind::Other
            },
        },
    }
}

/// The view of an optional owned string.
pub open spec fn opt_view(s: Option<String>) -> Option<Seq<char>> {
    match s {
        Some(x) => Some(x@),
        None => None,
    }
}

/// The extension of the file name `name`.
pub fn extension(name: &str) -> (r: Option<String>)
    ensures
        opt_view(r) == extension_spec(name@),
{
    let v = chars_of(name);
    if v.len() == 2 && v[0] == '.' && v[1] == '.' {
        assert(v@ =~= seq!['.', '.']);
        return None;
    }
    assert(v@ != seq!['.', '.']);
    match rfind_char(&v, '.') {
        Some(k) => {
            proof {
                assert(is_last_index(v@, '.', k as int));
                let c = choose|c: int| is_last_index(v@, '.', c);
                if c < k {
                    assert(v@[k as int] != '.');
                } else if k < c {
                    assert(v@[c] != '.');
                }
            }
            if k == 0 {
                None
            } else {
                Some(string_from_chars(subvec(&v, k + 1, v.len()).as_slice()))
            }
        },
        None => {
            assert(!exists|k: int| is_last_index(v@, '.', k));
            None
        },
    }
}

/// What the file named `name` is; a path without a file name is neither a
/// solution nor a project.
pub fn file_kind(name: Option<&str>) -> (k: ProjectFileKind)
    ensures
        k == kind_of_name(match name {
            Some(n) => Some(n@),
            None => None,
        }),
{
    match name {
        None => ProjectFileKind::Other,
        Some(n) => match extension(n) {
            None => ProjectFileKind::Other,
            Some(e) => {
                let lower = to_ascii_lower_chars(&chars_of(e.as_str()));
                if chars_eq_str(&lower, "sln") {
                    ProjectFileKind::Solution
                } else if chars_eq_str(&lower, "csproj") {
                    ProjectFileKind::Project
                } else {
                    ProjectFileKind::Other
                }
            },
        },
    }
}

/// The last solution and the last project among directory entries
/// `(path, file name)`, in listing order.
pub open spec fn scan_entries(entries: Seq<(String, Option<String>)>) -> (Option<String>, Option<String>)
    decreases entries.len(),
{
    if entries.len() == 0 {
        (None, None)
    } else {
        let (sln, csproj) = scan_entries(entries.drop_last());
        let e = entries.last();
        match kind_of_name(opt_view(e.1)) {
            ProjectFileKind::Solution => (Some(e.0), csproj),
            ProjectFileKind::Project => (sln, Some(e.0)),
            ProjectFileKind::Other => (sln, csproj),
        }
    }
}

/// The file to load from a directory listing: the last solution if there is
/// one, else the last project.
pub open spec fn pick_spec(entries: Seq<(String, Option<String>)>) -> DirectoryPick {
    match scan_entries(entries) {
        (Some(s), _) => DirectoryPick::Solution(s),
        (None, Some(c)) => DirectoryPick::Project(c),
        (None, None) => DirectoryPick::Nothing,
    }
}

proof fn lemma_scan_entries(entries: Seq<(String, Option<String>)>)
    ensures
        scan_entries(entries).0 is Some <==> exists|i: int| 0 <= i < entries.len() && kind_of_name(opt_view((#[trigger] entries[i]).1)) == ProjectFileKind::Solution,
        scan_entries(entries).1 is Some <==> exists|i: int| 0 <= i < entries.len() && kind_of_name(opt_view((#[trigger] entries[i]).1)) == ProjectFileKind::Project,
    decreases entries.len(),
{
    if entries.len() > 0 {
        let rest = entries.drop_last();
        lemma_scan_entries(rest);
        let last = entries.len() - 1;
        assert(entries[last] == entries.last());
        let k = kind_of_name(opt_view(entries.last().1));
        if exists|i: int| 0 <= i < entries.len() && kind_of_name(opt_view((#[trigger] entries[i]).1)) == ProjectFileKind::Solution {
            let i = choose|i: int| 0 <= i < entries.len() && kind_of_name(opt_view((#[trigger] entries[i]).1)) == ProjectFileKind::Solution;
            if i < last {
                assert(rest[i] == entries[i]);
            }
        }
        if exists|i: int| 0 <= i < rest.len() && kind_of_name(opt_view((#[trigger] rest[i]).1)) == ProjectFileKind::Solution {
            let i = choose|i: int| 0 <= i < rest.len() && kind_of_name(opt_view((#[trigger] rest[i]).1)) == ProjectFileKind::Solution;
            assert(entries[i] == rest[i]);
        }
        if exists|i: int| 0 <= i < entries.len() && kind_of_name(opt_view((#[trigger] entries[i]).1)) == ProjectFileKind::Project {
            let i = choose|i: int| 0 <= i < entries.len() && kind_of_name(opt_view((#[trigger] entries[i]).1)) == ProjectFileKind::Project;
            if i < last {
                assert(rest[i] == entries[i]);
            }
        }
        if exists|i: int| 0 <= i < rest.len() && kind_of_name(opt_view((#[trigger] rest[i]).1)) == ProjectFileKind::Project {
            let i = choose|i: int| 0 <= i < rest.len() && kind_of_name(opt_view((#[trigger] rest[i]).1)) == ProjectFileKind::Project;
            assert(entries[i] == rest[i]);
        }
    }
}

/// A directory that holds a solution loads a solution, whatever projects it
/// also holds; it loads a project only when it holds no solution.
pub proof fn lemma_directory_prefers_solution(entries: Seq<(String, Option<String>)>)
    ensures
        pick_spec(entries) is Solution <==> exists|i: int| 0 <= i < entries.len() && kind_of_name(opt_view((#[trigger] entries[i]).1)) == ProjectFileKind::Solution,
        pick_spec(entries) is Project <==> (!exists|i: int| 0 <= i < entries.len() && kind_of_name(opt_view((#[trigger] entries[i]).1)) == ProjectFileKind::Solution)
            && exists|i: int| 0 <= i < entries.len() && kind_of_name(opt_view((#[trigger] entries[i]).1)) == ProjectFileKind::Project,
{
    lemma_scan_entries(entries);
}

/// Choose the file to load among the entries `(path, file name)` of a
/// directory, in listing order: a solution wins over a project.
pub fn pick_in_directory(entries: &Vec<(String, Option<String>)>) -> (r: DirectoryPick)
    ensures
        r == pick_spec(entries@),
{
    let mut sln: Option<String> = None;
    let mut csproj: Option<String> = None;
    let n = entries.len();
    for i in 0..n
        invariant
            n == entries.len(),
            (sln, csproj) == scan_entries(entries@.take(i as int)),
    {
        assert(entries@.take(i + 1).drop_last() =~= entries@.take(i as int));
        let name = match &entries[i].1 {
            Some(x) => Some(x.as_str()),
            None => None,
        };
        match file_kind(name) {
            ProjectFileKind::Solution => {
                sln = Some(entries[i].0.clone());
            },
            ProjectFileKind::Project => {
                csproj = Some(entries[i].0.clone());
            },
            ProjectFileKind::Other => {},
        }
    }
    assert(entries@.take(n as int) =~= entries@);
    match sln {
        Some(s) => DirectoryPick::Solution(s),
        None => match csproj {
            Some(c) => DirectoryPick::Project(c),
            None => DirectoryPick::Nothing,
        },
    }
}

/// What discovery does next with an input path.
#[derive(Debug, Clone, PartialEq, Eq)]
pub enum DiscoverStep {
    /// Read the solution at this path and list its projects.
    ReadSolution(String),
    /// The input is this one project.
    Describe(String),
    /// Discovery fails with this error.
    Fail(DiscoverError),
}

/// The next step for a directory `dir` in which `pick` was chosen: read the
/// solution, take the project, or fail when the directory holds neither.
pub fn directory_step(pick: DirectoryPick, dir: &str) -> (r: DiscoverStep)
    ensures
        match pick {
            DirectoryPick::Solution(p) => r == DiscoverStep::ReadSolution(p),
            DirectoryPick::Project(p) => r == DiscoverStep::Describe(p),
            DirectoryPick::Nothing => r matches DiscoverStep::Fail(DiscoverError::NoProjectFile(d)) && d@ == dir@,
        },
{
    match pick {
        DirectoryPick::Solution(p) => DiscoverStep::ReadSolution(p),
        DirectoryPick::Project(p) => DiscoverStep::Describe(p),
        DirectoryPick::Nothing => DiscoverStep::Fail(DiscoverError::NoProjectFile(dir.to_owned())),
    }
}

/// The extension of the file name `name`, ASCII lowercased.
pub open spec fn lower_extension(name: Option<Seq<char>>) -> Option<Seq<char>> {
    match name {
        None => None,
        Some(n) => match extension_spec(n) {
            None => None,
            Some(e) => Some(ascii_lower_seq(e)),
        },
    }
}

/// The next step for a file at `path` whose file name is `name`: read it as
/// a solution, take it as a project, or fail naming its lowercased
/// extension as unsupported.
pub fn file_step(path: String, name: Option<&str>) -> (r: DiscoverStep)
    ensures
        ({
            let n = match name {
                Some(x) => Some(x@),
                None => None,
            };
            match kind_of_name(n) {
                ProjectFileKind::Solution => r == DiscoverStep::ReadSolution(path),
                ProjectFileKind::Project => r == DiscoverStep::Describe(path),
                ProjectFileKind::Other => r matches DiscoverStep::Fail(DiscoverError::Unsupported(e))
                    && opt_view(e) == lower_extension(n),
            }
        }),
{
    match file_kind(name) {
        ProjectFileKind::Solution => DiscoverStep::ReadSolution(path),
        ProjectFileKind::Project => DiscoverStep::Describe(path),
        ProjectFileKind::Other => {
            let ext = match name {
                None => None,
                Some(x) => match extension(x) {
                    None => None,
                    Some(e) => Some(string_from_chars(to_ascii_lower_chars(&chars_of(e.as_str())).as_slice())),
                },
            };
            DiscoverStep::Fail(DiscoverError::Unsupported(ext))
        },
    }
}

// ---------------------------------------------------------------------------
// Solution files
// ---------------------------------------------------------------------------

/// The trimmed quoted segments of `rest`, left to right; an unmatched quote
/// ends the list.
pub open spec fn quoted_segments(rest: Seq<char>) -> Seq<Seq<char>>
    decreases rest.len(),
{
    let s = find_char(rest, '"');
    proof {
        lemma_find_char_bounds(rest, '"');
    }
    if s >= rest.len() {
        seq![]
    } else {
        let after = rest.subrange(s + 1, rest.len() as int);
        let e = find_char(after, '"');
        proof {
            lemma_find_char_bounds(after, '"');
        }
        if e >= after.len() {
            seq![]
        } else {
            seq![trim(after.subrange(0, e))] + quoted_segments(
                after.subrange(e + 1, after.len() as int),
            )
        }
    }
}

/// A segment names a C# project: longer than `".csproj"` and ending with it,
/// ASCII case ignored.
pub open spec fn is_csproj_name(s: Seq<char>) -> bool {
    s.len() > 7 && ascii_lower_seq(s.subrange(s.len() - 7, s.len() as int)) == ".csproj"@
}

/// The first segment that names a C# project.
pub open spec fn first_csproj(segs: Seq<Seq<char>>) -> Option<Seq<char>>
    decreases segs.len(),
{
    if segs.len() == 0 {
        None
    } else if is_csproj_name(segs[0]) {
        Some(segs[0])
    } else {
        first_csproj(segs.drop_first())
    }
}

/// The project path that a solution line names: for a trimmed line that
/// starts with `Project(`, the first quoted segment after the first `'='`
/// that names a C# project; nothing for any other line.
pub open spec fn sln_project_path_spec(line: Seq<char>) -> Option<Seq<char>> {
    let t = trim(line);
    if !starts_with(t, "Project("@) {
        None
    } else {
        let eq = find_char(t, '=');
        if eq >= t.len() {
            None
        } else {
            first_csproj(quoted_segments(t.subrange(eq + 1, t.len() as int)))
        }
    }
}

fn is_csproj_segment(seg: &Vec<char>) -> (b: bool)
    ensures
        b == is_csproj_name(seg@),
{
    if seg.len() <= 7 {
        return false;
    }
    let tail = subvec(seg, seg.len() - 7, seg.len());
    let lower = to_ascii_lower_chars(&tail);
    chars_eq_str(&lower, ".csproj")
}

/// The project path that the solution line `line` names, if any.
pub fn sln_project_path(line: &str) -> (r: Option<String>)
    ensures
        opt_view(r) == sln_project_path_spec(line@),
{
    let t = trim_chars(&chars_of(line));
    let prefix = chars_of("Project(");
    if !matches_here(&t, &prefix, 0) {
        return None;
    }
    let n = t.len();
    let eq = find_char_from(&t, '=', 0);
    assert(t@.subrange(0, n as int) =~= t@);
    if eq >= n {
        return None;
    }
    let ghost whole = quoted_segments(t@.subrange(eq + 1, n as int));
    let mut pos = eq + 1;
    loop
        invariant
            n == t.len(),
            eq < pos <= n,
            sln_project_path_spec(line@) == first_csproj(whole),
            first_csproj(whole) == first_csproj(quoted_segments(t@.subrange(pos as int, n as int))),
        decreases n - pos,
    {
        let ghost rest = t@.subrange(pos as int, n as int);
        let s = find_char_from(&t, '"', pos);
        if s >= n {
            assert(quoted_segments(rest) =~= Seq::<Seq<char>>::empty());
            return None;
        }
        let e = find_char_from(&t, '"', s + 1);
        proof {
            assert(rest.subrange(s - pos + 1, rest.len() as int) =~= t@.subrange(s + 1, n as int));
        }
        if e >= n {
            assert(quoted_segments(rest) =~= Seq::<Seq<char>>::empty());
            return None;
        }
        let seg = trim_chars(&subvec(&t, s + 1, e));
        proof {
            let after = t@.subrange(s + 1, n as int);
            assert(after.subrange(0, e - s - 1) =~= t@.subrange(s + 1, e as int));
            assert(after.subrange(e - s, after.len() as int) =~= t@.subrange(e + 1, n as int));
            assert(quoted_segments(rest) =~= seq![seg@] + quoted_segments(t@.subrange(e + 1, n as int)));
            assert((seq![seg@] + quoted_segments(t@.subrange(e + 1, n as int))).drop_first() =~= quoted_segments(t@.subrange(e + 1, n as int)));
        }
        if is_csproj_segment(&seg) {
            return Some(string_from_chars(seg.as_slice()));
        }
        pos = e + 1;
    }
}

proof fn lemma_first_csproj(segs: Seq<Seq<char>>)
    ensures
        first_csproj(segs) matches Some(p) ==> is_csproj_name(p),
    decreases segs.len(),
{
    if segs.len() > 0 && !is_csproj_name(segs[0]) {
        lemma_first_csproj(segs.drop_first());
    }
}

/// Windows separators turned into `'/'`.
pub open spec fn forward_slashes(s: Seq<char>) -> Seq<char> {
    s.map_values(|c: char| if c == '\\' { '/' } else { c })
}

/// The project paths listed by the solution lines `lines`, in order, with
/// `'\\'` turned into `'/'`.
pub open spec fn solution_entries(lines: Seq<Seq<char>>) -> Seq<Seq<char>>
    decreases lines.len(),
{
    if lines.len() == 0 {
        seq![]
    } else {
        let rest = solution_entries(lines.drop_last());
        match sln_project_path_spec(lines.last()) {
            Some(p) => rest.push(forward_slashes(p)),
            None => rest,
        }
    }
}

proof fn lemma_forward_slashes_keep_csproj(p: Seq<char>)
    requires
        is_csproj_name(p),
    ensures
        is_csproj_name(forward_slashes(p)),
{
    reveal_strlit(".csproj");
    let q = forward_slashes(p);
    let n = p.len() as int;
    let tp = p.subrange(n - 7, n);
    let tq = q.subrange(n - 7, n);
    assert forall|i: int| 0 <= i < 7 implies #[trigger] tq[i] == tp[i] by {
        assert(ascii_lower_seq(tp)[i] == ".csproj"@[i]);
        assert(tp[i] != '\\');
    }
    assert(tq =~= tp);
}

/// Turning backslashes into slashes keeps the length and every other
/// character: position `i` of the result holds `'/'` where `s` holds a
/// `'\\'`, and `s[i]` everywhere else. So the result holds no `'\\'`.
pub proof fn lemma_forward_slashes(s: Seq<char>)
    ensures
        forward_slashes(s).len() == s.len(),
        forall|i: int| 0 <= i < s.len() ==> #[trigger] forward_slashes(s)[i] == (if s[i] == '\\' { '/' } else { s[i] }),
        forall|i: int| 0 <= i < s.len() ==> #[trigger] forward_slashes(s)[i] != '\\',
{
}

/// No project path a solution yields holds a `'\\'`: each is a path the
/// solution names, with every `'\\'` turned into `'/'`.
pub proof fn lemma_solution_entries_have_no_backslash(lines: Seq<Seq<char>>)
    ensures
        forall|k: int, i: int| 0 <= k < solution_entries(lines).len() && 0 <= i < solution_entries(lines)[k].len()
            ==> #[trigger] solution_entries(lines)[k][i] != '\\',
    decreases lines.len(),
{
    if lines.len() > 0 {
        let rest = solution_entries(lines.drop_last());
        lemma_solution_entries_have_no_backslash(lines.drop_last());
        match sln_project_path_spec(lines.last()) {
            Some(p) => {
                lemma_forward_slashes(p);
                let all = rest.push(forward_slashes(p));
                assert forall|k: int, i: int| 0 <= k < all.len() && 0 <= i < all[k].len() implies #[trigger] all[k][i] != '\\' by {
                    if k < rest.len() {
                        assert(all[k] == rest[k]);
                    } else {
                        assert(all[k] == forward_slashes(p));
                    }
                }
            },
            None => {},
        }
    }
}

/// Every path a solution yields names a C# project: it is longer than
/// `".csproj"` and ends with it, ASCII case ignored.
pub proof fn lemma_solution_entries_are_projects(lines: Seq<Seq<char>>)
    ensures
        forall|i: int| 0 <= i < solution_entries(lines).len() ==> is_csproj_name(#[trigger] solution_entries(lines)[i]),
    decreases lines.len(),
{
    if lines.len() > 0 {
        let rest = solution_entries(lines.drop_last());
        lemma_solution_entries_are_projects(lines.drop_last());
        let line = lines.last();
        let t = trim(line);
        let eq = find_char(t, '=');
        if starts_with(t, "Project("@) && eq < t.len() {
            lemma_first_csproj(quoted_segments(t.subrange(eq + 1, t.len() as int)));
        }
        match sln_project_path_spec(line) {
            Some(p) => {
                lemma_forward_slashes_keep_csproj(p);
                let all = rest.push(forward_slashes(p));
                assert forall|i: int| 0 <= i < all.len() implies is_csproj_name(#[trigger] all[i]) by {
                    if i < rest.len() {
                        assert(all[i] == rest[i]);
                    }
                }
            },
            None => {},
        }
    }
}

fn forward_slashes_of(s: &str) -> (r: String)
    ensures
        r@ == forward_slashes(s@),
{
    let v = chars_of(s);
    let mut out: Vec<char> = Vec::new();
    let n = v.len();
    for i in 0..n
        invariant
            n == v.len(),
            out@ == forward_slashes(v@.take(i as int)),
    {
        let c = v[i];
        out.push(if c == '\\' { '/' } else { c });
        assert(forward_slashes(v@.take(i + 1)) =~= forward_slashes(v@.take(i as int)).push(
            if c == '\\' { '/' } else { c },
        ));
    }
    assert(v@.take(n as int) =~= v@);
    string_from_chars(out.as_slice())
}

/// The target framework a project file's text declares: the value of
/// `<TargetFramework>`, else the first entry of `<TargetFrameworks>`,
/// trimmed; nothing when absent or blank.
pub open spec fn target_framework_spec(text: Seq<char>) -> Option<Seq<char>> {
    let value = match tag_value_spec(text, "TargetFramework"@) {
        Some(v) => Some(v),
        None => tag_value_spec(text, "TargetFrameworks"@),
    };
    match value {
        None => None,
        Some(v) => {
            let first = trim(v.subrange(0, find_char(v, ';')));
            if first.len() == 0 {
                None
            } else {
                Some(first)
            }
        },
    }
}

/// The trimmed text between the first `<tag>` and the next `</tag>`, or
/// nothing when either is missing or the text is blank.
pub open spec fn tag_value_spec(text: Seq<char>, tag: Seq<char>) -> Option<Seq<char>> {
    let open = "<"@ + tag + ">"@;
    let close = "</"@ + tag + ">"@;
    match first_match(text, open) {
        None => None,
        Some(i) => {
            let rest = text.subrange(i + open.len(), text.len() as int);
            match first_match(rest, close) {
                None => None,
                Some(e) => {
                    let v = trim(rest.subrange(0, e));
                    if v.len() == 0 {
                        None
                    } else {
                        Some(v)
                    }
                },
            }
        },
    }
}

proof fn lemma_first_match_is(hay: Seq<char>, needle: Seq<char>, i: int)
    requires
        is_first_match(hay, needle, i),
    ensures
        first_match(hay, needle) == Some(i),
{
    let c = choose|c: int| is_first_match(hay, needle, c);
    if c < i {
        assert(!matches_at(hay, needle, c));
    } else if i < c {
        assert(!matches_at(hay, needle, i));
    }
}

/// The value of an element: in a text made of `pre`, the opening tag
/// `<tag>`, `v`, the closing tag `</tag>` and `post`, where the opening tag
/// does not occur earlier and the closing tag does not occur inside `v`,
/// the value of `tag` is `v` trimmed, or nothing when `v` is blank.
pub proof fn lemma_tag_value_of_element(pre: Seq<char>, tag: Seq<char>, v: Seq<char>, post: Seq<char>)
    requires
        forall|i: int| 0 <= i < pre.len() ==> !matches_at(
            pre + ("<"@ + tag + ">"@) + v + ("</"@ + tag + ">"@) + post,
            "<"@ + tag + ">"@,
            i,
        ),
        forall|j: int| 0 <= j < v.len() ==> !matches_at(v + ("</"@ + tag + ">"@) + post, "</"@ + tag + ">"@, j),
    ensures
        tag_value_spec(pre + ("<"@ + tag + ">"@) + v + ("</"@ + tag + ">"@) + post, tag)
            == (if trim(v).len() == 0 { None } else { Some(trim(v)) }),
{
    let open = "<"@ + tag + ">"@;
    let close = "</"@ + tag + ">"@;
    let text = pre + open + v + close + post;
    let p = pre.len() as int;
    assert(text.subrange(p, p + open.len()) =~= open);
    assert(is_first_match(text, open, p));
    lemma_first_match_is(text, open, p);
    let rest = text.subrange(p + open.len(), text.len() as int);
    assert(rest =~= v + close + post);
    let tail = v + close + post;
    assert(tail.subrange(v.len() as int, v.len() as int + close.len()) =~= close);
    assert(is_first_match(rest, close, v.len() as int));
    lemma_first_match_is(rest, close, v.len() as int);
    assert(rest.subrange(0, v.len() as int) =~= v);
}

/// The target framework is the trimmed first `;`-separated entry of the
/// declared value: when the `TargetFramework` value `w` holds no `';'`, it
/// is `w` itself; when its first `';'` is at `k`, it is `w[..k]` trimmed,
/// or nothing when that is blank. Nothing else of the value is cut off.
pub proof fn lemma_target_framework_entry(text: Seq<char>, w: Seq<char>, k: int)
    requires
        tag_value_spec(text, "TargetFramework"@) == Some(w),
        0 <= k <= w.len(),
        forall|j: int| 0 <= j < k ==> #[trigger] w[j] != ';',
        k == w.len() || w[k] == ';',
    ensures
        k == w.len() ==> target_framework_spec(text) == Some(w),
        target_framework_spec(text) == (if trim(w.subrange(0, k)).len() == 0 { None } else { Some(trim(w.subrange(0, k))) }),
{
    lemma_find_char_is(w, ';', k);
    if k == w.len() {
        assert(w.subrange(0, k) =~= w);
        let open = "<"@ + "TargetFramework"@ + ">"@;
        let i = first_match(text, open)->0;
        let rest = text.subrange(i + open.len(), text.len() as int);
        let e = first_match(rest, "</"@ + "TargetFramework"@ + ">"@)->0;
        assert(w == trim(rest.subrange(0, e)));
        lemma_trim_idempotent(rest.subrange(0, e));
    }
}

/// A project that declares `<TargetFramework>v</TargetFramework>` (the
/// element's first opening tag, with no closing tag inside `v`), where `v`
/// is not blank and holds no `';'`, has exactly `v` trimmed as its target
/// framework: the whole moniker, platform part included.
pub proof fn lemma_target_framework_of_element(pre: Seq<char>, v: Seq<char>, post: Seq<char>)
    requires
        forall|i: int| 0 <= i < pre.len() ==> !matches_at(
            pre + "<TargetFramework>"@ + v + "</TargetFramework>"@ + post,
            "<TargetFramework>"@,
            i,
        ),
        forall|j: int| 0 <= j < v.len() ==> !matches_at(v + "</TargetFramework>"@ + post, "</TargetFramework>"@, j),
        trim(v).len() > 0,
        forall|j: int| 0 <= j < v.len() ==> #[trigger] v[j] != ';',
    ensures
        target_framework_spec(pre + "<TargetFramework>"@ + v + "</TargetFramework>"@ + post) == Some(trim(v)),
{
    reveal_strlit("<");
    reveal_strlit(">");
    reveal_strlit("</");
    reveal_strlit("TargetFramework");
    reveal_strlit("<TargetFramework>");
    reveal_strlit("</TargetFramework>");
    let tag = "TargetFramework"@;
    assert("<"@ + tag + ">"@ =~= "<TargetFramework>"@);
    assert("</"@ + tag + ">"@ =~= "</TargetFramework>"@);
    let text = pre + "<TargetFramework>"@ + v + "</TargetFramework>"@ + post;
    assert(text =~= pre + ("<"@ + tag + ">"@) + v + ("</"@ + tag + ">"@) + post);
    lemma_tag_value_of_element(pre, tag, v, post);
    let w = trim(v);
    lemma_trim_within(v);
    let lo = v.len() - trim_start(v).len();
    assert forall|j: int| 0 <= j < w.len() implies #[trigger] w[j] != ';' by {
        assert(w[j] == v[lo + j]);
    }
    lemma_target_framework_entry(text, w, w.len() as int);
}

/// The contents of a simple `<tag>value</tag>` element of `text`.
pub fn tag_value(text: &str, tag: &str) -> (r: Option<String>)
    ensures
        opt_view(r) == tag_value_spec(text@, tag@),
{
    let v = chars_of(text);
    let mut opening: Vec<char> = Vec::new();
    push_str(&mut opening, "<");
    push_str(&mut opening, tag);
    push_str(&mut opening, ">");
    let mut closing: Vec<char> = Vec::new();
    push_str(&mut closing, "</");
    push_str(&mut closing, tag);
    push_str(&mut closing, ">");
    let found = find_first(&v, &opening);
    let i = match found {
        Some(i) => i,
        None => return None,
    };
    let vlen = v.len();
    assert(crate::text::matches_at(v@, opening@, i as int));
    let start = i + opening.len();
    let rest = subvec(&v, start, v.len());
    let e = match find_first(&rest, &closing) {
        Some(e) => e,
        None => return None,
    };
    let value = trim_chars(&subvec(&rest, 0, e));
    if value.len() == 0 {
        None
    } else {
        Some(string_from_chars(value.as_slice()))
    }
}

/// The target framework that the project file text `text` declares.
pub fn target_framework(text: &str) -> (r: Option<String>)
    ensures
        opt_view(r) == target_framework_spec(text@),
{
    let value = match tag_value(text, "TargetFramework") {
        Some(v) => v,
        None => match tag_value(text, "TargetFrameworks") {
            Some(v) => v,
            None => return None,
        },
    };
    let v = chars_of(value.as_str());
    let semi = find_char_from(&v, ';', 0);
    assert(v@.subrange(0, v@.len() as int) =~= v@);
    let first = trim_chars(&subvec(&v, 0, semi));
    if first.len() == 0 {
        None
    } else {
        Some(string_from_chars(first.as_slice()))
    }
}

impl SolutionLoader {
    /// A loader.
    pub fn new() -> Self {
        SolutionLoader
    }

    /// The project paths that a solution file's text lists, in order, with
    /// Windows separators turned into `'/'`. Relative paths are relative to
    /// the solution's directory.
    pub fn solution_project_paths(&self, text: &str) -> (r: Vec<String>)
        ensures
            r.deep_view() == solution_entries(split_lines(text@)),
    {
        let lines = lines_of(text);
        let ghost lv = lines.deep_view();
        let mut out: Vec<String> = Vec::new();
        let n = lines.len();
        for i in 0..n
            invariant
                n == lines.len(),
                lv == lines.deep_view(),
                out.deep_view() == solution_entries(lv.take(i as int)),
        {
            assert(lv.take(i + 1).drop_last() =~= lv.take(i as int));
            assert(lv[i as int] == lines@[i as int]@);
            match sln_project_path(lines[i].as_str()) {
                Some(p) => {
                    let q = forward_slashes_of(p.as_str());
                    let ghost before = out.deep_view();
                    out.push(q);
                    assert(out.deep_view() =~= before.push(q@));
                },
                None => {},
            }
        }
        assert(lv.take(n as int) =~= lv);
        out
    }

    /// Describe the project at `csproj`, whose file holds `contents` (none
    /// when it could not be read).
    pub fn describe_project(&self, csproj: String, contents: Option<&str>) -> (d: ProjectDescriptor)
        ensures
            d.project_path == csproj,
            opt_view(d.target_framework) == match contents {
                Some(t) => target_framework_spec(t@),
                None => None,
            },
    {
        let target_framework = match contents {
            Some(t) => target_framework(t),
            None => None,
        };
        ProjectDescriptor { project_path: csproj, target_framework }
    }

    /// The result of reading a solution whose projects are `projects`: an
    /// error when it lists none.
    pub fn solution_projects(&self, sln: &str, projects: Vec<ProjectDescriptor>) -> (r: Result<Vec<ProjectDescriptor>, DiscoverError>)
        ensures
            projects.len() == 0 ==> (r matches Err(DiscoverError::NoProjects(s)) && s@ == sln@),
            projects.len() > 0 ==> r == Ok::<Vec<ProjectDescriptor>, DiscoverError>(projects),
    {
        if projects.len() == 0 {
            Err(DiscoverError::NoProjects(sln.to_owned()))
        } else {
            Ok(projects)
        }
    }
}

} // verus!
