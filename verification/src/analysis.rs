//! The C# analyzer's decisions: merging per-project graphs, the progress
//! events of a load, and the errors that end one.
//!
//! Loading a path alternates outside work (discovering projects, running the
//! helper) with decisions. An [`AnalysisRun`] holds the state between those
//! steps; each step takes what the outside work produced and returns the
//! progress event to emit.
use vstd::prelude::*;

use crate::domain::{GraphModel, MethodGraph};
use crate::dto::{graph_from_dto, AnalysisGraph};
use crate::solution::{ProjectDescriptor, SolutionLoader};
use crate::text::{decimal, push_decimal, push_str, string_from_chars};

verus! {

/// Why loading a path failed.
#[derive(Debug, Clone, PartialEq, Eq)]
pub enum AnalysisError {
    /// Discovering projects at the given path failed.
    Discover(String),
    /// No helper executable could be located.
    BridgeInit,
    /// Running the helper on the given project failed.
    ProjectFailed(String),
    /// The helper's output is not a graph document; the parser's message.
    Parse(String),
    /// The helper reported the given error.
    HelperReported(String),
}

impl AnalysisError {
    /// The error's message.
    pub open spec fn message_spec(self) -> Seq<char> {
        match self {
            AnalysisError::Discover(p) => "failed to discover projects at "@ + p@,
            AnalysisError::BridgeInit => "initializing Roslyn bridge"@,
            AnalysisError::ProjectFailed(p) => "Roslyn bridge failed for project "@ + p@,
            AnalysisError::Parse(m) => m@,
            AnalysisError::HelperReported(e) => "managed helper reported error: "@ + e@,
        }
    }

    /// The error's message.
    pub fn message(&self) -> (s: String)
        ensures
            s@ == self.message_spec(),
    {
        let mut out: Vec<char> = Vec::new();
        match self {
            AnalysisError::Discover(p) => {
                push_str(&mut out, "failed to discover projects at ");
                push_str(&mut out, p.as_str());
            },
            AnalysisError::BridgeInit => {
                push_str(&mut out, "initializing Roslyn bridge");
            },
            AnalysisError::ProjectFailed(p) => {
                push_str(&mut out, "Roslyn bridge failed for project ");
                push_str(&mut out, p.as_str());
            },
            AnalysisError::Parse(m) => {
                push_str(&mut out, m.as_str());
            },
            AnalysisError::HelperReported(e) => {
                push_str(&mut out, "managed helper reported error: ");
                push_str(&mut out, e.as_str());
            },
        }
        string_from_chars(out.as_slice())
    }
}

/// One progress update while a project loads. `current`/`total` count
/// analyzed projects (`0/0` marks an indeterminate step such as discovery).
#[derive(Debug, Clone)]
pub struct LoadProgress {
    pub target: String,
    pub stage: String,
    pub detail: String,
    pub current: usize,
    pub total: usize,
}

impl LoadProgress {
    /// A progress update with the given fields.
    pub fn new(target: &str, stage: &str, detail: String, current: usize, total: usize) -> (p: Self)
        ensures
            p.target@ == target@,
            p.stage@ == stage@,
            p.detail == detail,
            p.current == current,
            p.total == total,
    {
        LoadProgress {
            target: target.to_owned(),
            stage: stage.to_owned(),
            detail,
            current,
            total,
        }
    }
}

/// Analyzes C# solutions and projects. `resource_dir` is the installed app's
/// resource directory, where the helper bundle ships; without one the helper
/// is looked up in the development tree.
#[derive(Debug, Clone)]
pub struct CSharpAnalyzer {
    solution_loader: SolutionLoader,
    resource_dir: Option<String>,
}

impl CSharpAnalyzer {
    /// An analyzer without a resource directory.
    pub fn new() -> (a: Self)
        ensures
            a.resource_dir() is None,
    {
        CSharpAnalyzer { solution_loader: SolutionLoader::new(), resource_dir: None }
    }

    /// An analyzer that looks for the helper under `dir` first.
    pub fn with_resource_dir(dir: String) -> (a: Self)
        ensures
            a.resource_dir() == Some(dir),
    {
        CSharpAnalyzer { solution_loader: SolutionLoader::new(), resource_dir: Some(dir) }
    }

    /// The resource directory this analyzer was made with.
    pub closed spec fn resource_dir(&self) -> Option<String> {
        self.resource_dir
    }

    /// The resource directory this analyzer was made with.
    pub fn bridge_resource_dir(&self) -> (r: Option<&String>)
        ensures
            match r {
                Some(d) => self.resource_dir() == Some(*d),
                None => self.resource_dir() is None,
            },
    {
        match &self.resource_dir {
            Some(d) => Some(d),
            None => None,
        }
    }

    /// The loader that discovers projects for this analyzer.
    pub fn solution_loader(&self) -> &SolutionLoader {
        &self.solution_loader
    }
}

/// Merge `incoming` into `out`: nodes are deduplicated by identifier (the
/// node already in `out` wins) and edges by `(source, target)`.
pub fn merge_into(out: &mut MethodGraph, incoming: MethodGraph)
    ensures
        final(out)@ == old(out)@.merge(incoming@),
        old(out)@.well_formed() ==> final(out)@.well_formed(),
{
    let ghost start = out@;
    let ghost nodes = incoming.methods@;
    let ghost edges = incoming.edges@;
    for node in it: incoming.methods.into_iter()
        invariant
            it.seq() == nodes,
            out@ == start.add_missing_methods(nodes.take(it.index() as int)),
            start.well_formed() ==> out@.well_formed(),
    {
        assert(nodes.take(it.index() + 1).drop_last() =~= nodes.take(it.index() as int));
        if !out.contains_method(&node.id) {
            out.add_method(node);
        }
    }
    assert(nodes.take(nodes.len() as int) =~= nodes);
    let ghost mid = out@;
    for edge in it: incoming.edges.into_iter()
        invariant
            it.seq() == edges,
            out@ == mid.add_edges(edges.take(it.index() as int)),
            start.well_formed() ==> out@.well_formed(),
    {
        assert(edges.take(it.index() + 1).drop_last() =~= edges.take(it.index() as int));
        out.add_edge(edge);
    }
    assert(edges.take(edges.len() as int) =~= edges);
}

/// The graph obtained by merging `graphs` one after another into an empty
/// graph.
pub open spec fn merge_all(graphs: Seq<GraphModel>) -> GraphModel
    decreases graphs.len(),
{
    if graphs.len() == 0 {
        GraphModel::empty()
    } else {
        merge_all(graphs.drop_last()).merge(graphs.last())
    }
}

/// The name under which a project appears in the list of discovered
/// projects: its file name, or its whole path when it has none.
pub open spec fn listed_name(path: Seq<char>, file_name: Option<String>) -> Seq<char> {
    match file_name {
        Some(n) => n@,
        None => path,
    }
}

/// `names` joined with `", "`.
pub open spec fn comma_joined(names: Seq<Seq<char>>) -> Seq<char> {
    crate::text::join(names, ", "@)
}

/// The text of the first discovery event.
pub open spec fn discovery_detail(target: Seq<char>) -> Seq<char> {
    "Looking for .sln or .csproj in "@ + target
}

/// The text of the event that lists the discovered projects.
pub open spec fn discovered_detail(total: nat, names: Seq<char>) -> Seq<char> {
    "Found "@ + decimal(total) + " project(s): "@ + names
}

/// The text of the event that announces the helper.
pub open spec fn ready_detail(helper: Seq<char>) -> Seq<char> {
    "Analyzer ready: "@ + helper + " (self-contained, no SDK needed)"@
}

/// The text of the event before a project is analyzed.
pub open spec fn analyzing_detail(number: nat, total: nat, name: Seq<char>) -> Seq<char> {
    "Analyzing "@ + decimal(number) + "/"@ + decimal(total) + ": "@ + name
        + " \u{2014} running RoslynBridge\u{2026}"@
}

/// The text of the event after a project's graph is read.
pub open spec fn parsed_detail(
    number: nat,
    total: nat,
    name: Seq<char>,
    methods: nat,
    calls: nat,
) -> Seq<char> {
    "Parsed "@ + decimal(number) + "/"@ + decimal(total) + ": "@ + name + " \u{2014} "@ + decimal(
        methods,
    ) + " methods, "@ + decimal(calls) + " calls"@
}

/// The text of the final event.
pub open spec fn done_detail(methods: nat, calls: nat, total: nat) -> Seq<char> {
    "Done \u{2014} "@ + decimal(methods) + " methods, "@ + decimal(calls) + " calls across "@
        + decimal(total) + " project(s)"@
}

/// The state of one load between its outside steps: the target, the
/// discovered projects and the graph merged so far.
///
/// A load goes through its steps in one order, which the `requires` of the
/// steps keep: `discovery_progress`, then `new` with the discovered
/// projects, `discovered_progress` and `bridge_ready_progress` before any
/// project is taken in, then for each project in turn `analyzing_progress`
/// and `absorb` (a reported error ends the load), and once every project
/// is taken in, `done_progress` and `into_graph`. Each project's graph is
/// therefore merged exactly once, in order.
pub struct AnalysisRun {
    target: String,
    listed: String,
    names: Vec<Option<String>>,
    merged: MethodGraph,
    absorbed: Ghost<Seq<GraphModel>>,
}

impl AnalysisRun {
    /// The event that starts a load of `target`.
    pub fn discovery_progress(target: &str) -> (p: LoadProgress)
        ensures
            p.target@ == target@,
            p.stage@ == "discover"@,
            p.detail@ == discovery_detail(target@),
            p.current == 0,
            p.total == 0,
    {
        let mut d: Vec<char> = Vec::new();
        push_str(&mut d, "Looking for .sln or .csproj in ");
        push_str(&mut d, target);
        LoadProgress::new(target, "discover", string_from_chars(d.as_slice()), 0, 0)
    }

    /// The run's invariant.
    pub closed spec fn inv(&self) -> bool {
        &&& self.merged@ == merge_all(self.absorbed@)
        &&& self.merged@.well_formed()
        &&& self.absorbed@.len() <= self.names@.len()
    }

    /// The target being loaded.
    pub closed spec fn target(&self) -> Seq<char> {
        self.target@
    }

    /// The names of the discovered projects joined with `", "`.
    pub closed spec fn listed(&self) -> Seq<char> {
        self.listed@
    }

    /// The number of discovered projects.
    pub closed spec fn total(&self) -> nat {
        self.names@.len()
    }

    /// The name of project `i` in progress events: its file name, or the
    /// whole list when it has none.
    pub closed spec fn project_name(&self, i: int) -> Seq<char> {
        match self.names@[i] {
            Some(n) => n@,
            None => self.listed@,
        }
    }

    /// The graphs merged so far, in order.
    pub closed spec fn absorbed(&self) -> Seq<GraphModel> {
        self.absorbed@
    }

    /// The graph merged so far.
    pub closed spec fn merged(&self) -> GraphModel {
        self.merged@
    }

    /// Start the analysis phase after `projects` were discovered;
    /// `file_names[i]` is the file name of `projects[i]`'s path, if it has
    /// one.
    pub fn new(target: &str, projects: &Vec<ProjectDescriptor>, file_names: Vec<Option<String>>) -> (run: Self)
        requires
            projects.len() == file_names.len(),
        ensures
            run.inv(),
            run.target() == target@,
            run.total() == projects.len(),
            run.listed() == comma_joined(
                Seq::new(projects.len() as nat, |i: int| listed_name(projects@[i].project_path@, file_names@[i])),
            ),
            forall|i: int| 0 <= i < projects.len() ==> run.project_name(i) == match file_names@[i] {
                Some(n) => n@,
                None => run.listed(),
            },
            run.absorbed() == Seq::<GraphModel>::empty(),
    {
        let n = projects.len();
        let ghost names = Seq::new(n as nat, |i: int| listed_name(projects@[i].project_path@, file_names@[i]));
        let mut listed: Vec<char> = Vec::new();
        for i in 0..n
            invariant
                n == projects.len(),
                n == file_names.len(),
                names == Seq::new(n as nat, |i: int| listed_name(projects@[i].project_path@, file_names@[i])),
                listed@ == comma_joined(names.take(i as int)),
        {
            assert(names.take(i + 1).drop_last() =~= names.take(i as int));
            if i > 0 {
                push_str(&mut listed, ", ");
            }
            match &file_names[i] {
                Some(name) => push_str(&mut listed, name.as_str()),
                None => push_str(&mut listed, projects[i].project_path.as_str()),
            }
            if i == 0 {
                assert(listed@ =~= comma_joined(names.take(1)));
            }
        }
        assert(names.take(n as int) =~= names);
        let merged = MethodGraph::new();
        let run = AnalysisRun {
            target: target.to_owned(),
            listed: string_from_chars(listed.as_slice()),
            names: file_names,
            merged,
            absorbed: Ghost(Seq::empty()),
        };
        run
    }

    /// The event that lists the discovered projects.
    pub fn discovered_progress(&self) -> (p: LoadProgress)
        requires
            self.absorbed().len() == 0,
        ensures
            p.target@ == self.target(),
            p.stage@ == "discover"@,
            p.detail@ == discovered_detail(self.total(), self.listed()),
            p.current == 0,
            p.total == self.total(),
    {
        let total = self.names.len();
        let mut d: Vec<char> = Vec::new();
        push_str(&mut d, "Found ");
        push_decimal(&mut d, total as u64);
        push_str(&mut d, " project(s): ");
        push_str(&mut d, self.listed.as_str());
        LoadProgress::new(self.target.as_str(), "discover", string_from_chars(d.as_slice()), 0, total)
    }

    /// The event that announces the helper at `helper`.
    pub fn bridge_ready_progress(&self, helper: &str) -> (p: LoadProgress)
        requires
            self.absorbed().len() == 0,
        ensures
            p.target@ == self.target(),
            p.stage@ == "init"@,
            p.detail@ == ready_detail(helper@),
            p.current == 0,
            p.total == self.total(),
    {
        let mut d: Vec<char> = Vec::new();
        push_str(&mut d, "Analyzer ready: ");
        push_str(&mut d, helper);
        push_str(&mut d, " (self-contained, no SDK needed)");
        LoadProgress::new(self.target.as_str(), "init", string_from_chars(d.as_slice()), 0, self.names.len())
    }

    fn push_project_name(&self, d: &mut Vec<char>, index: usize)
        requires
            index < self.total(),
        ensures
            final(d)@ == old(d)@ + self.project_name(index as int),
    {
        match &self.names[index] {
            Some(name) => push_str(d, name.as_str()),
            None => push_str(d, self.listed.as_str()),
        }
    }

    /// The event before project `index` is analyzed.
    pub fn analyzing_progress(&self, index: usize) -> (p: LoadProgress)
        requires
            index < self.total(),
            index == self.absorbed().len(),
        ensures
            p.target@ == self.target(),
            p.stage@ == "analyze"@,
            p.detail@ == analyzing_detail((index + 1) as nat, self.total(), self.project_name(index as int)),
            p.current == index,
            p.total == self.total(),
    {
        let total = self.names.len();
        let mut d: Vec<char> = Vec::new();
        push_str(&mut d, "Analyzing ");
        push_decimal(&mut d, (index + 1) as u64);
        push_str(&mut d, "/");
        push_decimal(&mut d, total as u64);
        push_str(&mut d, ": ");
        self.push_project_name(&mut d, index);
        push_str(&mut d, " \u{2014} running RoslynBridge\u{2026}");
        LoadProgress::new(self.target.as_str(), "analyze", string_from_chars(d.as_slice()), index, total)
    }

    /// Take in the document the helper produced for project `index`: a
    /// reported error ends the load; otherwise its graph is merged into the
    /// graph so far and the returned event reports its size.
    pub fn absorb(&mut self, index: usize, document: AnalysisGraph) -> (r: Result<LoadProgress, AnalysisError>)
        requires
            old(self).inv(),
            index < old(self).total(),
            index == old(self).absorbed().len(),
        ensures
            final(self).inv(),
            final(self).target() == old(self).target(),
            final(self).listed() == old(self).listed(),
            final(self).total() == old(self).total(),
            forall|i: int| 0 <= i < old(self).total() ==> final(self).project_name(i) == old(self).project_name(i),
            match document.error {
                Some(e) => {
                    &&& r == Err::<LoadProgress, AnalysisError>(AnalysisError::HelperReported(e))
                    &&& final(self).absorbed() == old(self).absorbed()
                },
                None => {
                    let g = graph_from_dto(document.methods@, document.edges@);
                    &&& final(self).absorbed() == old(self).absorbed().push(g)
                    &&& r matches Ok(p) && {
                        &&& p.target@ == old(self).target()
                        &&& p.stage@ == "analyze"@
                        &&& p.detail@ == parsed_detail(
                            (index + 1) as nat,
                            old(self).total(),
                            old(self).project_name(index as int),
                            g.methods.len(),
                            g.edges.len(),
                        )
                        &&& p.current == index + 1
                        &&& p.total == old(self).total()
                    }
                },
            },
    {
        let graph = match document.into_domain() {
            Ok(g) => g,
            Err(e) => return Err(e),
        };
        let total = self.names.len();
        let mut d: Vec<char> = Vec::new();
        push_str(&mut d, "Parsed ");
        push_decimal(&mut d, (index + 1) as u64);
        push_str(&mut d, "/");
        push_decimal(&mut d, total as u64);
        push_str(&mut d, ": ");
        self.push_project_name(&mut d, index);
        push_str(&mut d, " \u{2014} ");
        push_decimal(&mut d, graph.methods.len() as u64);
        push_str(&mut d, " methods, ");
        push_decimal(&mut d, graph.edges.len() as u64);
        push_str(&mut d, " calls");
        let p = LoadProgress::new(self.target.as_str(), "analyze", string_from_chars(d.as_slice()), index + 1, total);
        let ghost g = graph@;
        merge_into(&mut self.merged, graph);
        proof {
            self.absorbed@ = self.absorbed@.push(g);
            assert(self.absorbed@.drop_last() =~= old(self).absorbed@);
        }
        Ok(p)
    }

    /// The final event.
    pub fn done_progress(&self) -> (p: LoadProgress)
        requires
            self.absorbed().len() == self.total(),
        ensures
            p.target@ == self.target(),
            p.stage@ == "done"@,
            p.detail@ == done_detail(self.merged().methods.len(), self.merged().edges.len(), self.total()),
            p.current == self.total(),
            p.total == self.total(),
    {
        let total = self.names.len();
        let mut d: Vec<char> = Vec::new();
        push_str(&mut d, "Done \u{2014} ");
        push_decimal(&mut d, self.merged.methods.len() as u64);
        push_str(&mut d, " methods, ");
        push_decimal(&mut d, self.merged.edges.len() as u64);
        push_str(&mut d, " calls across ");
        push_decimal(&mut d, total as u64);
        push_str(&mut d, " project(s)");
        LoadProgress::new(self.target.as_str(), "done", string_from_chars(d.as_slice()), total, total)
    }

    /// The graph merged from every project taken in.
    pub fn into_graph(self) -> (g: MethodGraph)
        requires
            self.inv(),
            self.absorbed().len() == self.total(),
        ensures
            g@ == merge_all(self.absorbed()),
            g@.well_formed(),
    {
        self.merged
    }
}

} // verus!
