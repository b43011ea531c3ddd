use codegraph::analysis::{merge_into, AnalysisError};
use codegraph::domain::{
    CallRelationship, MethodGraph, MethodId, MethodNode, RelationshipKind, SourceLocation,
};
use codegraph::dto::{AnalysisGraph, CallEdgeDto, MethodNodeDto, SourceLocationDto};

fn node(id: &str, name: &str) -> MethodNode {
    MethodNode {
        id: MethodId::new(id),
        name: name.to_string(),
        fully_qualified_name: format!("N.{name}()"),
        display_name: format!("{name}()"),
        containing_type: "N".to_string(),
        file_path: "/src/N.cs".to_string(),
        location: SourceLocation {
            file_path: "/src/N.cs".to_string(),
            start_line: 1,
            start_column: 1,
            end_line: 2,
            end_column: 1,
        },
    }
}

fn edge(s: &str, t: &str) -> CallRelationship {
    CallRelationship { source: MethodId::new(s), target: MethodId::new(t), kind: RelationshipKind::Calls }
}

fn names(v: &[&MethodNode]) -> Vec<String> {
    v.iter().map(|n| n.name.clone()).collect()
}

#[test]
fn add_edge_drops_self_loops_dangling_and_duplicates() {
    let mut g = MethodGraph::new();
    g.add_method(node("a", "A"));
    g.add_method(node("b", "B"));
    g.add_edge(edge("a", "a"));
    g.add_edge(edge("a", "zzz"));
    g.add_edge(edge("zzz", "b"));
    assert!(g.edges.is_empty());
    g.add_edge(edge("a", "b"));
    g.add_edge(edge("a", "b"));
    g.add_edge(edge("b", "a"));
    assert_eq!(g.edges.len(), 2);
    assert!(g.contains_edge(&MethodId::new("a"), &MethodId::new("b")));
    assert!(g.contains_edge(&MethodId::new("b"), &MethodId::new("a")));
    assert!(!g.contains_edge(&MethodId::new("a"), &MethodId::new("a")));
}

#[test]
fn add_method_replaces_a_node_with_the_same_id() {
    let mut g = MethodGraph::new();
    g.add_method(node("a", "A"));
    g.add_method(node("b", "B"));
    g.add_method(node("a", "Again"));
    assert_eq!(g.methods.len(), 2);
    assert_eq!(g.get_method(&MethodId::new("a")).map(|n| n.name.clone()), Some("Again".to_string()));
    assert_eq!(g.get_method(&MethodId::new("b")).map(|n| n.name.clone()), Some("B".to_string()));
    assert!(g.get_method(&MethodId::new("c")).is_none());
    assert_eq!(g.method_index(&MethodId::new("b")), Some(1));
}

#[test]
fn callers_and_callees_follow_edge_order() {
    let mut g = MethodGraph::new();
    for (id, n) in [("a", "A"), ("b", "B"), ("c", "C")] {
        g.add_method(node(id, n));
    }
    g.add_edge(edge("c", "b"));
    g.add_edge(edge("a", "b"));
    g.add_edge(edge("b", "c"));
    assert_eq!(names(&g.callers_of(&MethodId::new("b"))), vec!["C", "A"]);
    assert_eq!(names(&g.callees_of(&MethodId::new("b"))), vec!["C"]);
    assert!(g.callers_of(&MethodId::new("a")).is_empty());
    assert!(g.callees_of(&MethodId::new("missing")).is_empty());
}

#[test]
fn merge_keeps_existing_nodes_and_dedups_edges() {
    let mut out = MethodGraph::new();
    out.add_method(node("a", "A"));
    out.add_method(node("b", "B"));
    out.add_edge(edge("a", "b"));
    let mut incoming = MethodGraph::new();
    incoming.add_method(node("b", "Other"));
    incoming.add_method(node("c", "C"));
    incoming.add_edge(edge("b", "c"));
    incoming.add_edge(edge("c", "b"));
    let mut stale = incoming.duplicate();
    stale.edges.push(edge("a", "b"));
    merge_into(&mut out, stale);
    assert_eq!(out.methods.len(), 3);
    assert_eq!(out.get_method(&MethodId::new("b")).unwrap().name, "B");
    assert_eq!(out.edges.len(), 3);
}

#[test]
fn merging_a_graph_into_itself_changes_nothing() {
    let mut g = MethodGraph::new();
    g.add_method(node("a", "A"));
    g.add_method(node("b", "B"));
    g.add_edge(edge("a", "b"));
    let copy = g.duplicate();
    merge_into(&mut g, copy);
    assert_eq!(g.methods.len(), 2);
    assert_eq!(g.edges.len(), 1);
}

fn location(file: &str, line: u32, end_col: u32) -> SourceLocationDto {
    SourceLocationDto { file_path: file.to_string(), start_line: line, start_column: 5, end_line: line, end_column: end_col }
}

/// The document of the helper's test fixture.
fn fixture() -> AnalysisGraph {
    AnalysisGraph {
        error: None,
        methods: vec![
            MethodNodeDto {
                id: "csharp:OrderSystem.Services.OrderService.GetOrder(int)".to_string(),
                name: "GetOrder".to_string(),
                fully_qualified_name: "OrderSystem.Services.OrderService.GetOrder(int)".to_string(),
                display_name: "OrderService.GetOrder(int)".to_string(),
                containing_type: "OrderSystem.Services.OrderService".to_string(),
                file_path: "/repo/OrderService.cs".to_string(),
                location: location("/repo/OrderService.cs", 11, 55),
            },
            MethodNodeDto {
                id: "csharp:OrderSystem.Services.OrderRepository.FindById(int)".to_string(),
                name: "FindById".to_string(),
                fully_qualified_name: "OrderSystem.Services.OrderRepository.FindById(int)".to_string(),
                display_name: "OrderRepository.FindById(int)".to_string(),
                containing_type: "OrderSystem.Services.OrderRepository".to_string(),
                file_path: "/repo/OrderRepository.cs".to_string(),
                location: location("/repo/OrderRepository.cs", 16, 70),
            },
        ],
        edges: vec![CallEdgeDto {
            source: "csharp:OrderSystem.Services.OrderService.GetOrder(int)".to_string(),
            target: "csharp:OrderSystem.Services.OrderRepository.FindById(int)".to_string(),
            kind: "calls".to_string(),
        }],
    }
}

#[test]
fn parses_helper_json_into_domain_graph() {
    let graph = fixture().into_domain().expect("valid domain graph");

    assert_eq!(graph.methods.len(), 2);
    assert_eq!(graph.edges.len(), 1);

    let get_order = graph
        .get_method(&MethodId::new("csharp:OrderSystem.Services.OrderService.GetOrder(int)"))
        .expect("method present");
    assert_eq!(get_order.display_name, "OrderService.GetOrder(int)");
    assert_eq!(get_order.location.start_line, 11);

    let callees = graph.callees_of(&MethodId::new(
        "csharp:OrderSystem.Services.OrderService.GetOrder(int)",
    ));
    assert_eq!(callees.len(), 1);
    assert_eq!(callees[0].name, "FindById");
}

#[test]
fn surfaces_helper_error() {
    let doc = AnalysisGraph { error: Some("boom".to_string()), methods: vec![], edges: vec![] };
    let err = doc.into_domain().expect_err("error text becomes Err");
    assert!(err.message().contains("boom"));
    assert_eq!(err, AnalysisError::HelperReported("boom".to_string()));
    assert_eq!(err.message(), "managed helper reported error: boom");
}

#[test]
fn unknown_edge_kinds_read_as_calls_and_dangling_edges_drop() {
    let mut doc = fixture();
    doc.edges[0].kind = "overrides".to_string();
    doc.edges.push(CallEdgeDto { source: "x".into(), target: "y".into(), kind: String::new() });
    let graph = doc.into_domain().expect("graph");
    assert_eq!(graph.edges.len(), 1);
    assert_eq!(graph.edges[0].kind, RelationshipKind::Calls);
}

#[test]
fn repeated_ids_keep_the_last_node() {
    let mut doc = fixture();
    let mut again = fixture();
    let mut second = again.methods.remove(0);
    second.name = "Renamed".to_string();
    doc.methods.push(second);
    let graph = doc.into_domain().expect("graph");
    assert_eq!(graph.methods.len(), 2);
    assert_eq!(graph.methods[0].name, "Renamed");
}
