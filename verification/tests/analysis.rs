use codegraph::analysis::{AnalysisError, AnalysisRun, CSharpAnalyzer, LoadProgress};
use codegraph::dto::{AnalysisGraph, CallEdgeDto, MethodNodeDto, SourceLocationDto};
use codegraph::solution::ProjectDescriptor;

fn method(id: &str) -> MethodNodeDto {
    MethodNodeDto {
        id: id.to_string(),
        name: id.to_string(),
        fully_qualified_name: id.to_string(),
        display_name: id.to_string(),
        containing_type: "T".to_string(),
        file_path: "/f.cs".to_string(),
        location: SourceLocationDto { file_path: "/f.cs".to_string(), start_line: 1, start_column: 1, end_line: 2, end_column: 1 },
    }
}

fn doc(ids: &[&str], edges: &[(&str, &str)]) -> AnalysisGraph {
    AnalysisGraph {
        error: None,
        methods: ids.iter().map(|i| method(i)).collect(),
        edges: edges
            .iter()
            .map(|(s, t)| CallEdgeDto { source: s.to_string(), target: t.to_string(), kind: "calls".to_string() })
            .collect(),
    }
}

fn project(path: &str) -> ProjectDescriptor {
    ProjectDescriptor { project_path: path.to_string(), target_framework: None }
}

fn check(p: &LoadProgress, stage: &str, detail: &str, current: usize, total: usize) {
    assert_eq!(p.target, "/src/App.sln");
    assert_eq!(p.stage, stage);
    assert_eq!(p.detail, detail);
    assert_eq!((p.current, p.total), (current, total));
}

#[test]
fn a_load_reports_each_stage() {
    let start = AnalysisRun::discovery_progress("/src/App.sln");
    check(&start, "discover", "Looking for .sln or .csproj in /src/App.sln", 0, 0);

    let projects = vec![project("/src/a/A.csproj"), project("/src/b/B.csproj")];
    let names = vec![Some("A.csproj".to_string()), Some("B.csproj".to_string())];
    let mut run = AnalysisRun::new("/src/App.sln", &projects, names);
    check(&run.discovered_progress(), "discover", "Found 2 project(s): A.csproj, B.csproj", 0, 2);
    check(
        &run.bridge_ready_progress("/opt/RoslynBridge"),
        "init",
        "Analyzer ready: /opt/RoslynBridge (self-contained, no SDK needed)",
        0,
        2,
    );
    check(&run.analyzing_progress(0), "analyze", "Analyzing 1/2: A.csproj \u{2014} running RoslynBridge\u{2026}", 0, 2);
    let parsed = run.absorb(0, doc(&["x", "y"], &[("x", "y"), ("y", "y")])).expect("first project");
    check(&parsed, "analyze", "Parsed 1/2: A.csproj \u{2014} 2 methods, 1 calls", 1, 2);
    let parsed = run.absorb(1, doc(&["y", "z"], &[("x", "y"), ("y", "z")])).expect("second project");
    check(&parsed, "analyze", "Parsed 2/2: B.csproj \u{2014} 2 methods, 1 calls", 2, 2);
    check(&run.done_progress(), "done", "Done \u{2014} 3 methods, 2 calls across 2 project(s)", 2, 2);
    let graph = run.into_graph();
    assert_eq!(graph.methods.len(), 3);
    assert_eq!(graph.edges.len(), 2);
}

#[test]
fn a_project_without_file_name_is_named_by_the_list() {
    let projects = vec![project("/")];
    let run = AnalysisRun::new("/src/App.sln", &projects, vec![None]);
    check(&run.discovered_progress(), "discover", "Found 1 project(s): /", 0, 1);
    check(&run.analyzing_progress(0), "analyze", "Analyzing 1/1: / \u{2014} running RoslynBridge\u{2026}", 0, 1);
}

#[test]
fn a_reported_error_ends_the_load() {
    let projects = vec![project("/src/a/A.csproj")];
    let mut run = AnalysisRun::new("/src/App.sln", &projects, vec![Some("A.csproj".into())]);
    let mut bad = doc(&["x"], &[]);
    bad.error = Some("no compilation".to_string());
    let err = run.absorb(0, bad).expect_err("helper error");
    assert_eq!(err.message(), "managed helper reported error: no compilation");
    // Nothing was taken in: the same project is still the next one.
    check(&run.analyzing_progress(0), "analyze", "Analyzing 1/1: A.csproj \u{2014} running RoslynBridge\u{2026}", 0, 1);
}

#[test]
fn analysis_errors_read_like_their_context() {
    assert_eq!(AnalysisError::Discover("/x".into()).message(), "failed to discover projects at /x");
    assert_eq!(AnalysisError::BridgeInit.message(), "initializing Roslyn bridge");
    assert_eq!(AnalysisError::ProjectFailed("/p.csproj".into()).message(), "Roslyn bridge failed for project /p.csproj");
    assert_eq!(AnalysisError::Parse("expected value".into()).message(), "expected value");
}

#[test]
fn analyzers_remember_their_resource_dir() {
    assert!(CSharpAnalyzer::new().bridge_resource_dir().is_none());
    let a = CSharpAnalyzer::with_resource_dir("/res".to_string());
    assert_eq!(a.bridge_resource_dir().map(|s| s.as_str()), Some("/res"));
    let p = LoadProgress::new("t", "s", "d".to_string(), 1, 2);
    assert_eq!((p.target.as_str(), p.stage.as_str(), p.detail.as_str(), p.current, p.total), ("t", "s", "d", 1, 2));
}
