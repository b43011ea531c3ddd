//! The wire format that the managed helper emits, and its conversion into the
//! domain graph.
use vstd::prelude::*;

use crate::analysis::AnalysisError;
use crate::domain::{
    lemma_add_methods_lookup, CallRelationship, GraphModel, MethodGraph, MethodId, MethodNode, RelationshipKind,
    SourceLocation,
};

verus! {

/// Top-level document emitted by the managed helper.
#[derive(Debug)]
pub struct AnalysisGraph {
    pub error: Option<String>,
    pub methods: Vec<MethodNodeDto>,
    pub edges: Vec<CallEdgeDto>,
}

/// A source location as the helper writes it.
#[derive(Debug)]
pub struct SourceLocationDto {
    pub file_path: String,
    pub start_line: u32,
    pub start_column: u32,
    pub end_line: u32,
    pub end_column: u32,
}

/// A method as the helper writes it.
#[derive(Debug)]
pub struct MethodNodeDto {
    pub id: String,
    pub name: String,
    pub fully_qualified_name: String,
    pub display_name: String,
    pub containing_type: String,
    pub file_path: String,
    pub location: SourceLocationDto,
}

/// A call edge as the helper writes it.
#[derive(Debug)]
pub struct CallEdgeDto {
    pub source: String,
    pub target: String,
    pub kind: String,
}

/// The domain location for a wire location: the same fields.
pub open spec fn location_from_dto(v: SourceLocationDto) -> SourceLocation {
    SourceLocation {
        file_path: v.file_path,
        start_line: v.start_line,
        start_column: v.start_column,
        end_line: v.end_line,
        end_column: v.end_column,
    }
}

/// The domain node for a wire node: the same fields, the identifier wrapped.
pub open spec fn node_from_dto(v: MethodNodeDto) -> MethodNode {
    MethodNode {
        id: MethodId(v.id),
        name: v.name,
        fully_qualified_name: v.fully_qualified_name,
        display_name: v.display_name,
        containing_type: v.containing_type,
        file_path: v.file_path,
        location: location_from_dto(v.location),
    }
}

/// The domain relationship for a wire edge. Every kind, known or not, is
/// read as a direct call.
pub open spec fn edge_from_dto(v: CallEdgeDto) -> CallRelationship {
    CallRelationship {
        source: MethodId(v.source),
        target: MethodId(v.target),
        kind: RelationshipKind::Calls,
    }
}

impl vstd::std_specs::convert::FromSpecImpl<SourceLocationDto> for SourceLocation {
    open spec fn obeys_from_spec() -> bool {
        true
    }

    open spec fn from_spec(v: SourceLocationDto) -> Self {
        location_from_dto(v)
    }
}

impl From<SourceLocationDto> for SourceLocation {
    fn from(v: SourceLocationDto) -> (r: Self) {
        SourceLocation {
            file_path: v.file_path,
            start_line: v.start_line,
            start_column: v.start_column,
            end_line: v.end_line,
            end_column: v.end_column,
        }
    }
}

impl vstd::std_specs::convert::FromSpecImpl<MethodNodeDto> for MethodNode {
    open spec fn obeys_from_spec() -> bool {
        true
    }

    open spec fn from_spec(v: MethodNodeDto) -> Self {
        node_from_dto(v)
    }
}

impl From<MethodNodeDto> for MethodNode {
    fn from(v: MethodNodeDto) -> (r: Self) {
        MethodNode {
            id: MethodId(v.id),
            name: v.name,
            fully_qualified_name: v.fully_qualified_name,
            display_name: v.display_name,
            containing_type: v.containing_type,
            file_path: v.file_path,
            location: SourceLocation::from(v.location),
        }
    }
}

impl vstd::std_specs::convert::FromSpecImpl<CallEdgeDto> for CallRelationship {
    open spec fn obeys_from_spec() -> bool {
        true
    }

    open spec fn from_spec(v: CallEdgeDto) -> Self {
        edge_from_dto(v)
    }
}

impl From<CallEdgeDto> for CallRelationship {
    fn from(v: CallEdgeDto) -> (r: Self) {
        CallRelationship {
            source: MethodId(v.source),
            target: MethodId(v.target),
            kind: RelationshipKind::Calls,
        }
    }
}

/// The domain graph a helper document describes when it reports no error:
/// its methods inserted in order, then its edges offered in order.
pub open spec fn graph_from_dto(methods: Seq<MethodNodeDto>, edges: Seq<CallEdgeDto>) -> GraphModel {
    GraphModel::empty().add_methods(methods.map_values(|m: MethodNodeDto| node_from_dto(m))).add_edges(
        edges.map_values(|e: CallEdgeDto| edge_from_dto(e)),
    )
}

/// Converting a helper document keeps each method as the helper described
/// it: for a method of the document that no later method replaces (by
/// identifier), the graph's node for its identifier carries exactly the
/// wire method's identifier, names, containing type and file path, and every
/// field of its location: file, start line and column, end line and column.
pub proof fn lemma_document_nodes(methods: Seq<MethodNodeDto>, edges: Seq<CallEdgeDto>, i: int)
    requires
        0 <= i < methods.len(),
        forall|j: int| i < j < methods.len() ==> (#[trigger] methods[j]).id@ != methods[i].id@,
    ensures
        graph_from_dto(methods, edges).lookup(methods[i].id@) matches Some(n) && {
            let m = methods[i];
            &&& n.id@ == m.id@
            &&& n.name == m.name
            &&& n.fully_qualified_name == m.fully_qualified_name
            &&& n.display_name == m.display_name
            &&& n.containing_type == m.containing_type
            &&& n.file_path == m.file_path
            &&& n.location.file_path == m.location.file_path
            &&& n.location.start_line == m.location.start_line
            &&& n.location.start_column == m.location.start_column
            &&& n.location.end_line == m.location.end_line
            &&& n.location.end_column == m.location.end_column
        },
{
    let ns = methods.map_values(|m: MethodNodeDto| node_from_dto(m));
    let es = edges.map_values(|e: CallEdgeDto| edge_from_dto(e));
    assert forall|j: int| i < j < ns.len() implies (#[trigger] ns[j]).id@ != ns[i].id@ by {
        assert(ns[j].id@ == methods[j].id@);
    }
    lemma_add_methods_lookup(GraphModel::empty(), ns, i, es);
}

impl AnalysisGraph {
    /// Convert the document into a domain graph. A reported `error` becomes
    /// `Err`.
    pub fn into_domain(self) -> (r: Result<MethodGraph, AnalysisError>)
        ensures
            match self.error {
                Some(e) => r == Err::<MethodGraph, AnalysisError>(AnalysisError::HelperReported(e)),
                None => r matches Ok(g) && g@ == graph_from_dto(self.methods@, self.edges@)
                    && g@.well_formed(),
            },
    {
        if let Some(err) = self.error {
            return Err(AnalysisError::HelperReported(err));
        }
        let ghost methods = self.methods@.map_values(|m: MethodNodeDto| node_from_dto(m));
        let ghost edges = self.edges@.map_values(|e: CallEdgeDto| edge_from_dto(e));
        let mut graph = MethodGraph::new();
        for m in it: self.methods.into_iter()
            invariant
                it.seq() == self.methods@,
                methods == it.seq().map_values(|m: MethodNodeDto| node_from_dto(m)),
                graph@ == GraphModel::empty().add_methods(methods.take(it.index() as int)),
                graph@.well_formed(),
        {
            assert(methods.take(it.index() + 1).drop_last() =~= methods.take(it.index() as int));
            graph.add_method(MethodNode::from(m));
        }
        assert(methods.take(methods.len() as int) =~= methods);
        let ghost base = graph@;
        for e in it: self.edges.into_iter()
            invariant
                it.seq() == self.edges@,
                edges == it.seq().map_values(|e: CallEdgeDto| edge_from_dto(e)),
                graph@ == base.add_edges(edges.take(it.index() as int)),
                graph@.well_formed(),
        {
            assert(edges.take(it.index() + 1).drop_last() =~= edges.take(it.index() as int));
            graph.add_edge(CallRelationship::from(e));
        }
        assert(edges.take(edges.len() as int) =~= edges);
        Ok(graph)
    }
}

} // verus!
