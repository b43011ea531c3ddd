use codegraph::domain::{MethodGraph, MethodId, MethodNode, SourceLocation};
use codegraph::service::{
    find_line_matches, find_line_matches_in, AppError, GraphService, LoadedGraph, MAX_SEARCH_RESULTS,
};

const LINES: &[&str] = &[
    "public Order? GetOrder(int id)",
    "{",
    "    return _repository.FindById(id);",
    "}",
];

#[test]
fn matches_declaration_and_body_case_insensitively() {
    let out = find_line_matches(LINES, 1, 4, "findbyid", 10);
    assert_eq!(
        out,
        vec![(3, "return _repository.FindById(id);".to_string())]
    );

    let out = find_line_matches(LINES, 1, 4, "getorder", 10);
    assert_eq!(out, vec![(1, "public Order? GetOrder(int id)".to_string())]);
}

#[test]
fn respects_span_and_cap() {
    // Body line excluded when the span covers only the declaration.
    assert!(find_line_matches(LINES, 1, 1, "findbyid", 10).is_empty());
    // Cap of 1 keeps only the first of two matches for "{"-adjacent "r".
    let out = find_line_matches(LINES, 1, 4, "r", 1);
    assert_eq!(out.len(), 1);
    assert_eq!(out[0].0, 1);
}

#[test]
fn rejects_degenerate_spans() {
    assert!(find_line_matches(LINES, 3, 2, "x", 10).is_empty());
    assert!(find_line_matches(LINES, 99, 120, "x", 10).is_empty());
    assert!(find_line_matches(LINES, 1, 4, "getorder", 0).is_empty());
}

#[test]
fn span_is_clipped_to_the_file_and_lines_come_in_order() {
    let out = find_line_matches(LINES, 0, 99, "r", 10);
    let numbers: Vec<u32> = out.iter().map(|(n, _)| *n).collect();
    assert_eq!(numbers, vec![1, 3]);
    assert_eq!(out[1].1, "return _repository.FindById(id);");
}

#[test]
fn uppercase_needle_does_not_match_lowercased_lines() {
    // The needle is expected lowercase; lines are lowercased before the test.
    assert!(find_line_matches(LINES, 1, 4, "FindById", 10).is_empty());
}

fn node(file: &str, id: &str, display: &str, start: u32, end: u32) -> MethodNode {
    MethodNode {
        id: MethodId::new(id),
        name: display.to_string(),
        fully_qualified_name: display.to_string(),
        display_name: display.to_string(),
        containing_type: "Svc".to_string(),
        file_path: file.to_string(),
        location: SourceLocation {
            file_path: file.to_string(),
            start_line: start,
            start_column: 1,
            end_line: end,
            end_column: 1,
        },
    }
}

fn test_service(file: &str) -> GraphService {
    let mut graph = MethodGraph::new();
    graph.add_method(node(file, "b", "Svc.B()", 5, 7));
    graph.add_method(node(file, "a", "Svc.A()", 1, 3));
    let mut service = GraphService::new();
    service.store_graph(LoadedGraph {
        project_id: "p".to_string(),
        source_path: "/tmp".to_string(),
        graph,
    });
    service
}

const SVC: &str = "void A() {\n  Log(\"hit\");\n}\n\nvoid B() {\n  Log(\"HIT\");\n}";

#[test]
fn search_methods_matches_lines_ordered_by_method() {
    let file = "/tmp/Svc.cs";
    let service = test_service(file);
    let files = vec![(file.to_string(), Some(SVC.to_string()))];
    let out = service.search_methods("p", "hit", &files).expect("search");
    assert_eq!(out.len(), 2);
    // Ordered by display name: A() before B().
    assert_eq!(out[0].method.display_name, "Svc.A()");
    assert_eq!(out[0].line_number, 2);
    assert_eq!(out[0].line_text, "Log(\"hit\");");
    assert_eq!(out[1].method.display_name, "Svc.B()");
    assert_eq!(out[1].line_number, 6);

    assert!(service
        .search_methods("p", "   ", &files)
        .expect("search")
        .is_empty());
    assert!(service.search_methods("missing", "hit", &files).is_err());
}

#[test]
fn blank_query_succeeds_even_for_a_closed_project() {
    let service = GraphService::new();
    assert!(service.search_methods("missing", " \t ", &vec![]).expect("blank").is_empty());
    match service.search_methods("missing", "x", &vec![]) {
        Err(AppError::ProjectNotOpen(p)) => assert_eq!(p, "missing"),
        other => panic!("unexpected {:?}", other.map(|v| v.len())),
    }
}

#[test]
fn search_skips_unreadable_files_and_trims_the_query() {
    let service = test_service("/tmp/Missing.cs");
    let files = vec![("/tmp/Missing.cs".to_string(), None)];
    assert!(service.search_methods("p", "  hit  ", &files).expect("search").is_empty());
    let files = vec![("/tmp/Missing.cs".to_string(), Some(SVC.to_string()))];
    assert_eq!(service.search_methods("p", "  HIT  ", &files).expect("search").len(), 2);
}

#[test]
fn search_caps_results() {
    let file = "/tmp/Big.cs";
    let mut text = String::new();
    for _ in 0..10 {
        text.push_str("hit\n");
    }
    let mut graph = MethodGraph::new();
    for i in 0..30 {
        graph.add_method(node(file, &format!("m{i:02}"), &format!("M{i:02}"), 1, 10));
    }
    let mut service = GraphService::new();
    service.store_graph(LoadedGraph { project_id: "p".into(), source_path: "/".into(), graph });
    let out = service
        .search_methods("p", "hit", &vec![(file.to_string(), Some(text))])
        .expect("search");
    // Five lines per method, one hundred overall.
    assert_eq!(out.len(), MAX_SEARCH_RESULTS);
    assert_eq!(out[0].method.display_name, "M00");
    assert_eq!(out[4].line_number, 5);
    assert_eq!(out[5].method.display_name, "M01");
    assert_eq!(out[99].method.display_name, "M19");
}

#[test]
fn search_lowercases_non_ascii_queries() {
    let file = "/tmp/Umlaut.cs";
    let service = test_service(file);
    let text = "void A() {\n  Grüße();\n}\n\nvoid B() {\n  GRÜSSE();\n}";
    let files = vec![(file.to_string(), Some(text.to_string()))];
    let out = service.search_methods("p", "GRÜ", &files).expect("search");
    assert_eq!(out.len(), 2);
    assert_eq!(out[0].line_text, "Grüße();");
    assert_eq!(out[1].line_number, 6);
}

#[test]
fn matching_tests_the_given_lowercase_forms() {
    let lowered: Vec<String> = vec!["x".into(), "needle".into(), "x".into(), "needle".into()];
    let out = find_line_matches_in(LINES, &lowered, 1, 4, "needle", 10);
    assert_eq!(
        out,
        vec![(2, "{".to_string()), (4, "}".to_string())]
    );
    assert_eq!(find_line_matches_in(LINES, &lowered, 1, 4, "needle", 1).len(), 1);
    assert!(find_line_matches_in(LINES, &lowered, 3, 3, "needle", 10).is_empty());
}

#[test]
fn search_lowered_takes_the_needle_as_given() {
    let file = "/tmp/Svc.cs";
    let service = test_service(file);
    let files = vec![(file.to_string(), Some(SVC.to_string()))];
    assert_eq!(service.search_lowered("p", "hit", &files).expect("search").len(), 2);
    // The needle is not lowercased again, and lines are compared lowercased.
    assert!(service.search_lowered("p", "HIT", &files).expect("search").is_empty());
    assert!(service.search_lowered("p", "", &files).expect("search").is_empty());
    assert!(service.search_lowered("missing", "", &files).expect("blank").is_empty());
}
