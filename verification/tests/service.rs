use codegraph::domain::{CallRelationship, MethodGraph, MethodId, MethodNode, RelationshipKind, SourceLocation};
use codegraph::service::{
    is_relevant_change, method_source_in, new_project_id, project_display_name,
    replace_method_source, AppError, ChangeEvent, ChangedPath, GraphService, LoadedGraph,
};

fn node(id: &str, display: &str, start: u32, end: u32) -> MethodNode {
    MethodNode {
        id: MethodId::new(id),
        name: display.to_string(),
        fully_qualified_name: display.to_string(),
        display_name: display.to_string(),
        containing_type: "T".to_string(),
        file_path: "/f.cs".to_string(),
        location: SourceLocation { file_path: "/f.cs".to_string(), start_line: start, start_column: 1, end_line: end, end_column: 1 },
    }
}

fn service() -> GraphService {
    let mut g = MethodGraph::new();
    g.add_method(node("m", "Main()", 1, 2));
    g.add_method(node("z", "Zed()", 3, 4));
    g.add_method(node("a", "Alpha()", 5, 6));
    g.add_method(node("b", "Alpha()", 7, 8));
    for (s, t) in [("z", "m"), ("a", "m"), ("b", "m"), ("m", "z"), ("m", "a")] {
        g.add_edge(CallRelationship { source: MethodId::new(s), target: MethodId::new(t), kind: RelationshipKind::Calls });
    }
    let mut s = GraphService::new();
    let copy = s.store_graph(LoadedGraph { project_id: "p".into(), source_path: "/src".into(), graph: g });
    assert_eq!(copy.project_id, "p");
    s
}

fn ids(v: &[MethodNode]) -> Vec<String> {
    v.iter().map(|n| n.id.as_str().to_string()).collect()
}

#[test]
fn neighbours_are_sorted_by_display_name_stably() {
    let s = service();
    assert_eq!(ids(&s.callers("p", &MethodId::new("m")).unwrap()), vec!["a", "b", "z"]);
    assert_eq!(ids(&s.callees("p", &MethodId::new("m")).unwrap()), vec!["a", "z"]);
    assert!(s.callers("p", &MethodId::new("b")).unwrap().is_empty());
    assert_eq!(ids(&s.callers("p", &MethodId::new("a")).unwrap()), vec!["m"]);
}

#[test]
fn lookups_report_closed_projects_and_missing_methods() {
    let mut s = service();
    assert_eq!(s.method("p", &MethodId::new("z")).unwrap().display_name, "Zed()");
    match s.method("p", &MethodId::new("nope")) {
        Err(AppError::MethodNotFound(id)) => assert_eq!(id, "nope"),
        other => panic!("unexpected {:?}", other.map(|n| n.name)),
    }
    assert!(s.cached_graph("p").is_some());
    assert_eq!(s.source_files("p"), vec!["/f.cs".to_string(); 4]);
    s.close_project("p");
    assert!(s.cached_graph("p").is_none());
    assert!(s.source_files("p").is_empty());
    match s.callers("p", &MethodId::new("m")) {
        Err(e) => assert_eq!(e.message(), "project is not open: p"),
        Ok(_) => panic!("closed project answered"),
    }
}

#[test]
fn storing_again_replaces_the_graph() {
    let mut s = service();
    let mut g = MethodGraph::new();
    g.add_method(node("only", "Only()", 1, 1));
    s.store_graph(LoadedGraph { project_id: "q".into(), source_path: "/q".into(), graph: MethodGraph::new() });
    s.store_graph(LoadedGraph { project_id: "p".into(), source_path: "/p2".into(), graph: g });
    let p = s.cached_graph("p").unwrap();
    assert_eq!(p.source_path, "/p2");
    assert_eq!(p.graph.methods.len(), 1);
    assert!(s.current("q").is_ok());
    s.set_resource_dir(Some("/res".into()));
    assert_eq!(s.analyzer().bridge_resource_dir().map(|d| d.as_str()), Some("/res"));
}

const FILE: &str = "class C {\r\n  void M() {\n    Run();\n  }\n}\n";

#[test]
fn method_source_is_the_joined_span() {
    let m = node("m", "M()", 2, 4);
    let src = method_source_in(&m, FILE);
    assert_eq!(src.code, "  void M() {\n    Run();\n  }");
    assert_eq!(src.start_line, 2);
    let beyond = method_source_in(&node("x", "X()", 4, 9), FILE);
    assert_eq!(beyond.code, "");
    let zero = method_source_in(&node("x", "X()", 0, 1), FILE);
    assert_eq!(zero.code, "class C {");
}

#[test]
fn saving_replaces_the_span_and_keeps_the_final_newline() {
    let m = node("m", "M()", 2, 4);
    let next = replace_method_source(&m, FILE, "  void M() => Run();").unwrap();
    assert_eq!(next, "class C {\n  void M() => Run();\n}\n");
    let no_newline = replace_method_source(&node("c", "C", 1, 1), "a\nb", "x\ny").unwrap();
    assert_eq!(no_newline, "x\ny\nb");
    match replace_method_source(&node("x", "X()", 5, 9), FILE, "") {
        Err(AppError::Source(msg)) => {
            assert_eq!(msg, "method source range is no longer valid; refresh the graph first")
        }
        other => panic!("unexpected {:?}", other),
    }
    assert!(replace_method_source(&node("x", "X()", 3, 2), FILE, "").is_err());
}

#[test]
fn reading_back_a_save_gives_the_code() {
    let m = node("m", "M()", 2, 4);
    let code = "  void M()\r\n  {\n    Other();\n  }\n";
    let next = replace_method_source(&m, FILE, code).unwrap();
    let lines: Vec<&str> = next.lines().collect();
    assert_eq!(lines, vec!["class C {", "  void M()", "  {", "    Other();", "  }", "}"]);
    let read = method_source_in(&node("m", "M()", 2, 5), &next);
    assert_eq!(read.code, "  void M()\n  {\n    Other();\n  }");
}

#[test]
fn saving_what_was_read_changes_nothing() {
    for text in ["class C {\n  void M() {\n    Run();\n  }\n}\n", "a\nb\n\nc", "x\r\ny\n"] {
        let m = node("m", "M()", 1, 2);
        let read = method_source_in(&m, text);
        let saved = replace_method_source(&m, text, &read.code).unwrap();
        if text.contains("\r\n") {
            assert_ne!(saved, text);
        } else {
            assert_eq!(saved, text);
        }
    }
}

#[test]
fn a_closed_project_stays_closed_and_others_keep_their_graphs() {
    let mut s = service();
    let mut other = MethodGraph::new();
    other.add_method(node("q", "Q()", 1, 1));
    s.store_graph(LoadedGraph { project_id: "o".into(), source_path: "/o".into(), graph: other });
    s.close_project("p");
    s.close_project("p");
    s.close_project("never-opened");
    for r in [s.method("p", &MethodId::new("m")).map(|_| ()), s.callees("p", &MethodId::new("m")).map(|_| ())] {
        assert!(matches!(r, Err(AppError::ProjectNotOpen(ref p)) if p == "p"));
    }
    assert!(matches!(s.search_methods("p", " Run ", &vec![]), Err(AppError::ProjectNotOpen(_))));
    assert!(s.search_methods("p", "  ", &vec![]).unwrap().is_empty());
    assert!(matches!(s.search_lowered("p", "run", &vec![]), Err(AppError::ProjectNotOpen(_))));
    assert_eq!(s.method("o", &MethodId::new("q")).unwrap().display_name, "Q()");
}

#[test]
fn project_ids_and_names() {
    assert_eq!(new_project_id(1700000000, 42), "project-1700000000-42");
    assert_eq!(new_project_id(-5, u64::MAX), "project--5-18446744073709551615");
    assert_eq!(project_display_name(Some("OrderSystem.csproj")), "OrderSystem");
    assert_eq!(project_display_name(Some("archive.tar.gz")), "archive.tar");
    assert_eq!(project_display_name(Some(".hidden")), ".hidden");
    assert_eq!(project_display_name(Some("src")), "src");
    assert_eq!(project_display_name(None), "Untitled project");
}

fn path(parts: &[&str], ext: Option<&str>) -> ChangedPath {
    ChangedPath { components: parts.iter().map(|p| p.to_string()).collect(), extension: ext.map(str::to_string) }
}

#[test]
fn only_source_changes_outside_build_output_matter() {
    let src = path(&["/", "repo", "Svc.cs"], Some("cs"));
    let obj = path(&["/", "repo", "obj", "Svc.cs"], Some("cs"));
    let txt = path(&["/", "repo", "notes.txt"], Some("txt"));
    assert!(is_relevant_change(&ChangeEvent { is_access: false, paths: vec![txt.clone(), src.clone()] }));
    assert!(!is_relevant_change(&ChangeEvent { is_access: true, paths: vec![src.clone()] }));
    assert!(!is_relevant_change(&ChangeEvent { is_access: false, paths: vec![obj, txt] }));
    assert!(!is_relevant_change(&ChangeEvent { is_access: false, paths: vec![path(&["/", ".git", "x.sln"], Some("sln"))] }));
    assert!(is_relevant_change(&ChangeEvent { is_access: false, paths: vec![path(&["/", "Directory.Build"], Some("props"))] }));
}

#[test]
fn app_errors_read_like_their_display() {
    assert_eq!(AppError::NotInitialized.message(), "project service has not initialized");
    assert_eq!(AppError::ProjectNotFound("p".into()).message(), "project not found: p");
    assert_eq!(AppError::Analysis("x".into()).message(), "analysis failed: x");
    assert_eq!(AppError::Source("y".into()).message(), "could not read method source: y");
}
