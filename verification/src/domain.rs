//! Language-independent graph model: method identifiers, method nodes, call
//! relationships and the method graph with its well-formedness invariant.
use vstd::prelude::*;

verus! {

/// A stable, opaque identifier for a method, compared by value. The C#
/// analyzer mints tagged strings of the form `csharp:<signature>`.
#[derive(Debug, Clone, PartialEq, Eq, Hash)]
pub struct MethodId(pub String);

impl View for MethodId {
    type V = Seq<char>;

    open spec fn view(&self) -> Seq<char> {
        self.0@
    }
}

impl MethodId {
    /// An identifier holding `raw`.
    pub fn new(raw: &str) -> (id: Self)
        ensures
            id@ == raw@,
    {
        MethodId(raw.to_owned())
    }

    /// The identifier's text.
    pub fn as_str(&self) -> (s: &str)
        ensures
            s@ == self@,
    {
        self.0.as_str()
    }

    /// Whether two identifiers are equal.
    pub fn same_as(&self, other: &MethodId) -> (b: bool)
        ensures
            b == (self@ == other@),
    {
        self.0 == other.0
    }

    /// A copy of this identifier.
    pub fn duplicate(&self) -> (r: Self)
        ensures
            r == *self,
    {
        MethodId(self.0.clone())
    }
}

/// Location within a source file; lines and columns are 1-based.
#[derive(Debug, Clone, PartialEq, Eq)]
pub struct SourceLocation {
    pub file_path: String,
    pub start_line: u32,
    pub start_column: u32,
    pub end_line: u32,
    pub end_column: u32,
}

impl SourceLocation {
    /// A copy of this location.
    pub fn duplicate(&self) -> (r: Self)
        ensures
            r == *self,
    {
        SourceLocation {
            file_path: self.file_path.clone(),
            start_line: self.start_line,
            start_column: self.start_column,
            end_line: self.end_line,
            end_column: self.end_column,
        }
    }
}

/// A method discovered by an analyzer. `fully_qualified_name` is the
/// language-native name, `display_name` a short label for compact views.
#[derive(Debug, Clone, PartialEq, Eq)]
pub struct MethodNode {
    pub id: MethodId,
    pub name: String,
    pub fully_qualified_name: String,
    pub display_name: String,
    pub containing_type: String,
    pub file_path: String,
    pub location: SourceLocation,
}

impl MethodNode {
    /// A copy of this node.
    pub fn duplicate(&self) -> (r: Self)
        ensures
            r == *self,
    {
        MethodNode {
            id: self.id.duplicate(),
            name: self.name.clone(),
            fully_qualified_name: self.fully_qualified_name.clone(),
            display_name: self.display_name.clone(),
            containing_type: self.containing_type.clone(),
            file_path: self.file_path.clone(),
            location: self.location.duplicate(),
        }
    }
}

/// The kind of relationship between two methods.
#[derive(Debug, Clone, Copy, PartialEq, Eq, Structural)]
pub enum RelationshipKind {
    /// The source method directly invokes the target method.
    Calls,
}

/// A directed relationship `source -> target`.
#[derive(Debug, Clone, PartialEq, Eq)]
pub struct CallRelationship {
    pub source: MethodId,
    pub target: MethodId,
    pub kind: RelationshipKind,
}

/// Convenience alias used at the API surface.
pub type CallEdge = CallRelationship;

impl CallRelationship {
    /// A copy of this relationship.
    pub fn duplicate(&self) -> (r: Self)
        ensures
            r == *self,
    {
        CallRelationship { source: self.source.duplicate(), target: self.target.duplicate(), kind: self.kind }
    }
}

/// `i` is the first position in `ms` holding a node with identifier `id`.
pub open spec fn is_first_with_id(ms: Seq<MethodNode>, id: Seq<char>, i: int) -> bool {
    &&& 0 <= i < ms.len()
    &&& ms[i].id@ == id
    &&& forall|j: int| 0 <= j < i ==> (#[trigger] ms[j]).id@ != id
}

/// The mathematical model of a method graph: its nodes in order and its edges
/// in order.
pub struct GraphModel {
    pub methods: Seq<MethodNode>,
    pub edges: Seq<CallRelationship>,
}

impl GraphModel {
    /// The graph with no methods and no edges.
    pub open spec fn empty() -> GraphModel {
        GraphModel { methods: Seq::empty(), edges: Seq::empty() }
    }

    /// Some node has identifier `id`.
    pub open spec fn has_method(self, id: Seq<char>) -> bool {
        exists|i: int| is_first_with_id(self.methods, id, i)
    }

    /// The position of the node with identifier `id` (meaningful when
    /// `has_method(id)`).
    pub open spec fn index_of(self, id: Seq<char>) -> int {
        choose|i: int| is_first_with_id(self.methods, id, i)
    }

    /// The node with identifier `id` (meaningful when `has_method(id)`).
    pub open spec fn node(self, id: Seq<char>) -> MethodNode {
        self.methods[self.index_of(id)]
    }

    /// Lookup by identifier: the map view of the node list.
    pub open spec fn lookup(self, id: Seq<char>) -> Option<MethodNode> {
        if self.has_method(id) {
            Some(self.node(id))
        } else {
            None
        }
    }

    /// No two nodes share an identifier.
    pub open spec fn unique_ids(self) -> bool {
        forall|i: int, j: int|
            0 <= i < j < self.methods.len() ==> (#[trigger] self.methods[i]).id@ != (
            #[trigger] self.methods[j]).id@
    }

    /// Some edge goes from `source` to `target`.
    pub open spec fn has_edge(self, source: Seq<char>, target: Seq<char>) -> bool {
        exists|k: int|
            0 <= k < self.edges.len() && (#[trigger] self.edges[k]).source@ == source
                && self.edges[k].target@ == target
    }

    /// Every edge joins two distinct methods of the graph, and no two edges
    /// join the same pair.
    pub open spec fn edges_valid(self) -> bool {
        &&& forall|k: int|
            0 <= k < self.edges.len() ==> {
                let e = #[trigger] self.edges[k];
                &&& e.source@ != e.target@
                &&& self.has_method(e.source@)
                &&& self.has_method(e.target@)
            }
        &&& forall|k: int, l: int|
            0 <= k < l < self.edges.len() ==> !((#[trigger] self.edges[k]).source@
                == (#[trigger] self.edges[l]).source@ && self.edges[k].target@
                == self.edges[l].target@)
    }

    /// The invariant that every graph built through `MethodGraph`'s
    /// operations keeps.
    pub open spec fn well_formed(self) -> bool {
        self.unique_ids() && self.edges_valid()
    }

    /// The graph after inserting `node`: it replaces the node with the same
    /// identifier, or is appended when there is none.
    pub open spec fn add_method(self, node: MethodNode) -> GraphModel {
        if self.has_method(node.id@) {
            GraphModel {
                methods: self.methods.update(self.index_of(node.id@), node),
                edges: self.edges,
            }
        } else {
            GraphModel { methods: self.methods.push(node), edges: self.edges }
        }
    }

    /// Whether `add_edge` keeps `edge`: not a self-loop, both ends present,
    /// and no edge for the same pair yet.
    pub open spec fn accepts_edge(self, edge: CallRelationship) -> bool {
        &&& edge.source@ != edge.target@
        &&& self.has_method(edge.source@)
        &&& self.has_method(edge.target@)
        &&& !self.has_edge(edge.source@, edge.target@)
    }

    /// The graph after offering `edge`.
    pub open spec fn add_edge(self, edge: CallRelationship) -> GraphModel {
        if self.accepts_edge(edge) {
            GraphModel { methods: self.methods, edges: self.edges.push(edge) }
        } else {
            self
        }
    }

    /// The graph after inserting `nodes` one after another.
    pub open spec fn add_methods(self, nodes: Seq<MethodNode>) -> GraphModel
        decreases nodes.len(),
    {
        if nodes.len() == 0 {
            self
        } else {
            self.add_methods(nodes.drop_last()).add_method(nodes.last())
        }
    }

    /// The graph after offering `edges` one after another.
    pub open spec fn add_edges(self, edges: Seq<CallRelationship>) -> GraphModel
        decreases edges.len(),
    {
        if edges.len() == 0 {
            self
        } else {
            self.add_edges(edges.drop_last()).add_edge(edges.last())
        }
    }

    /// The graph after inserting those of `nodes` whose identifier is not
    /// present yet (the first node for an identifier wins).
    pub open spec fn add_missing_methods(self, nodes: Seq<MethodNode>) -> GraphModel
        decreases nodes.len(),
    {
        if nodes.len() == 0 {
            self
        } else {
            let g = self.add_missing_methods(nodes.drop_last());
            if g.has_method(nodes.last().id@) {
                g
            } else {
                g.add_method(nodes.last())
            }
        }
    }

    /// `incoming` merged into this graph: nodes deduplicated by identifier
    /// (existing nodes win), then `incoming`'s edges offered in order.
    pub open spec fn merge(self, incoming: GraphModel) -> GraphModel {
        self.add_missing_methods(incoming.methods).add_edges(incoming.edges)
    }

    /// The nodes of the callers of `target` along the edges `es`, in edge
    /// order.
    pub open spec fn callers_along(self, es: Seq<CallRelationship>, target: Seq<char>) -> Seq<
        MethodNode,
    >
        decreases es.len(),
    {
        if es.len() == 0 {
            seq![]
        } else {
            let rest = self.callers_along(es.drop_last(), target);
            let e = es.last();
            if e.target@ == target && self.has_method(e.source@) {
                rest.push(self.node(e.source@))
            } else {
                rest
            }
        }
    }

    /// The nodes of the callees of `source` along the edges `es`, in edge
    /// order.
    pub open spec fn callees_along(self, es: Seq<CallRelationship>, source: Seq<char>) -> Seq<
        MethodNode,
    >
        decreases es.len(),
    {
        if es.len() == 0 {
            seq![]
        } else {
            let rest = self.callees_along(es.drop_last(), source);
            let e = es.last();
            if e.source@ == source && self.has_method(e.target@) {
                rest.push(self.node(e.target@))
            } else {
                rest
            }
        }
    }

    /// All methods that directly call `target`, in edge order.
    pub open spec fn callers(self, target: Seq<char>) -> Seq<MethodNode> {
        self.callers_along(self.edges, target)
    }

    /// All methods that `source` directly calls, in edge order.
    pub open spec fn callees(self, source: Seq<char>) -> Seq<MethodNode> {
        self.callees_along(self.edges, source)
    }
}

/// A method-call graph: nodes keyed by their stable identifier, edges as a
/// flat list. Graphs built through `new`, `add_method` and `add_edge` are
/// well formed (see `GraphModel::well_formed`).
#[derive(Debug, Clone)]
pub struct MethodGraph {
    pub methods: Vec<MethodNode>,
    pub edges: Vec<CallRelationship>,
}

impl View for MethodGraph {
    type V = GraphModel;

    open spec fn view(&self) -> GraphModel {
        GraphModel { methods: self.methods@, edges: self.edges@ }
    }
}

/// The first node with identifier `id` is unique.
proof fn lemma_first_unique(ms: Seq<MethodNode>, id: Seq<char>, i: int, j: int)
    requires
        is_first_with_id(ms, id, i),
        is_first_with_id(ms, id, j),
    ensures
        i == j,
{
    if i < j {
        assert(ms[i].id@ != id);
    } else if j < i {
        assert(ms[j].id@ != id);
    }
}

/// If some node has identifier `id`, a first one does.
proof fn lemma_has_first(ms: Seq<MethodNode>, id: Seq<char>, i: int)
    requires
        0 <= i < ms.len(),
        ms[i].id@ == id,
    ensures
        exists|f: int| is_first_with_id(ms, id, f),
    decreases i,
{
    if exists|j: int| 0 <= j < i && (#[trigger] ms[j]).id@ == id {
        let j = choose|j: int| 0 <= j < i && (#[trigger] ms[j]).id@ == id;
        lemma_has_first(ms, id, j);
    } else {
        assert(is_first_with_id(ms, id, i));
    }
}

/// `has_method` holds exactly when some position holds the identifier.
pub proof fn lemma_has_method_iff(g: GraphModel, id: Seq<char>)
    ensures
        g.has_method(id) <==> exists|i: int| 0 <= i < g.methods.len() && (#[trigger] g.methods[i]).id@ == id,
{
    if exists|i: int| 0 <= i < g.methods.len() && (#[trigger] g.methods[i]).id@ == id {
        let i = choose|i: int| 0 <= i < g.methods.len() && (#[trigger] g.methods[i]).id@ == id;
        lemma_has_first(g.methods, id, i);
    }
}

/// The node found for an identifier carries that identifier.
pub proof fn lemma_node_id(g: GraphModel, id: Seq<char>)
    requires
        g.has_method(id),
    ensures
        is_first_with_id(g.methods, id, g.index_of(id)),
        g.node(id).id@ == id,
{
}

/// After `add_method(node)`, looking up `node`'s identifier gives `node`, and
/// every other identifier looks up as before; `add_method` keeps the graph
/// well formed.
pub proof fn lemma_add_method(g: GraphModel, node: MethodNode)
    ensures
        g.add_method(node).lookup(node.id@) == Some(node),
        forall|k: Seq<char>| k != node.id@ ==> #[trigger] g.add_method(node).lookup(k) == g.lookup(k),
        forall|k: Seq<char>| #[trigger] g.add_method(node).has_method(k) <==> (g.has_method(k) || k == node.id@),
        g.add_method(node).edges == g.edges,
        g.well_formed() ==> g.add_method(node).well_formed(),
{
    let h = g.add_method(node);
    let id = node.id@;
    if g.has_method(id) {
        let p = g.index_of(id);
        assert(is_first_with_id(h.methods, id, p));
        lemma_first_unique(h.methods, id, p, h.index_of(id));
        assert forall|k: Seq<char>| k != id implies (#[trigger] h.lookup(k) == g.lookup(k) && (h.has_method(k) <==> g.has_method(k))) by {
            if g.has_method(k) {
                let q = g.index_of(k);
                assert(q != p);
                assert(is_first_with_id(h.methods, k, q));
                lemma_first_unique(h.methods, k, q, h.index_of(k));
            }
            if h.has_method(k) {
                let q = h.index_of(k);
                assert(q != p);
                assert forall|j: int| 0 <= j < q implies (#[trigger] g.methods[j]).id@ != k by {
                    if j != p {
                        assert(g.methods[j] == h.methods[j]);
                    }
                }
                assert(g.methods[q] == h.methods[q]);
                assert(is_first_with_id(g.methods, k, q));
            }
        }
        assert forall|k: Seq<char>| #[trigger] h.has_method(k) <==> (g.has_method(k) || k == id) by {
            if k != id {
                assert(h.lookup(k) == g.lookup(k));
            }
        }
        if g.well_formed() {
            assert forall|i: int, j: int| 0 <= i < j < h.methods.len() implies (#[trigger] h.methods[i]).id@ != (#[trigger] h.methods[j]).id@ by {
                assert(g.methods[i].id@ != g.methods[j].id@);
            }
        }
    } else {
        let p = g.methods.len() as int;
        assert forall|j: int| 0 <= j < p implies (#[trigger] h.methods[j]).id@ != id by {
            assert(h.methods[j] == g.methods[j]);
            if g.methods[j].id@ == id {
                lemma_has_first(g.methods, id, j);
            }
        }
        assert(is_first_with_id(h.methods, id, p));
        lemma_first_unique(h.methods, id, p, h.index_of(id));
        assert forall|k: Seq<char>| k != id implies (#[trigger] h.lookup(k) == g.lookup(k) && (h.has_method(k) <==> g.has_method(k))) by {
            if g.has_method(k) {
                let q = g.index_of(k);
                assert(is_first_with_id(h.methods, k, q));
                lemma_first_unique(h.methods, k, q, h.index_of(k));
            }
            if h.has_method(k) {
                let q = h.index_of(k);
                assert(q != p);
                assert forall|j: int| 0 <= j < q implies (#[trigger] g.methods[j]).id@ != k by {
                    if j != p {
                        assert(g.methods[j] == h.methods[j]);
                    }
                }
                assert(g.methods[q] == h.methods[q]);
                assert(is_first_with_id(g.methods, k, q));
            }
        }
        assert forall|k: Seq<char>| #[trigger] h.has_method(k) <==> (g.has_method(k) || k == id) by {
            if k != id {
                assert(h.lookup(k) == g.lookup(k));
            }
        }
        if g.well_formed() {
            assert forall|i: int, j: int| 0 <= i < j < h.methods.len() implies (#[trigger] h.methods[i]).id@ != (#[trigger] h.methods[j]).id@ by {
                if j == p {
                    assert(h.methods[i] == g.methods[i]);
                }
            }
        }
    }
    if g.well_formed() {
        assert forall|k: int| 0 <= k < h.edges.len() implies {
            let e = #[trigger] h.edges[k];
            &&& e.source@ != e.target@
            &&& h.has_method(e.source@)
            &&& h.has_method(e.target@)
        } by {
            let e = h.edges[k];
            assert(g.edges[k] == e);
            assert(h.has_method(e.source@) <==> (g.has_method(e.source@) || e.source@ == id));
            assert(h.has_method(e.target@) <==> (g.has_method(e.target@) || e.target@ == id));
        }
    }
}

/// Offering an edge keeps the graph well formed.
pub proof fn lemma_add_edge(g: GraphModel, edge: CallRelationship)
    ensures
        g.add_edge(edge).methods == g.methods,
        g.well_formed() ==> g.add_edge(edge).well_formed(),
        g.add_edge(edge).has_edge(edge.source@, edge.target@) <==> (g.has_edge(edge.source@, edge.target@) || g.accepts_edge(edge)),
{
    let h = g.add_edge(edge);
    if g.accepts_edge(edge) {
        let n = g.edges.len() as int;
        assert(h.edges[n] == edge);
        if g.well_formed() {
            assert forall|k: int, l: int| 0 <= k < l < h.edges.len() implies !((#[trigger] h.edges[k]).source@
                == (#[trigger] h.edges[l]).source@ && h.edges[k].target@
                == h.edges[l].target@) by {
                if l == n {
                    assert(h.edges[k] == g.edges[k]);
                }
            }
        }
    }
}

proof fn lemma_push_contains(a: Seq<Seq<char>>, x: Seq<char>, t: Seq<char>)
    ensures
        a.push(x).contains(t) <==> (a.contains(t) || x == t),
{
    if a.push(x).contains(t) && !a.contains(t) {
        let i = choose|i: int| 0 <= i < a.len() + 1 && a.push(x)[i] == t;
        if i < a.len() {
            assert(a[i] == t);
        }
    }
    if a.contains(t) {
        let i = choose|i: int| 0 <= i < a.len() && a[i] == t;
        assert(a.push(x)[i] == t);
    }
    if x == t {
        assert(a.push(x)[a.len() as int] == t);
    }
}

/// The identifiers of `ns`, in order.
pub open spec fn ids_of(ns: Seq<MethodNode>) -> Seq<Seq<char>> {
    ns.map_values(|n: MethodNode| n.id@)
}

proof fn lemma_callee_ids_along(g: GraphModel, es: Seq<CallRelationship>, s: Seq<char>, t: Seq<char>)
    requires
        forall|k: int| 0 <= k < es.len() ==> g.has_method((#[trigger] es[k]).target@),
    ensures
        ids_of(g.callees_along(es, s)).contains(t) <==> exists|k: int|
            0 <= k < es.len() && (#[trigger] es[k]).source@ == s && es[k].target@ == t,
    decreases es.len(),
{
    if es.len() == 0 {
        assert(ids_of(g.callees_along(es, s)) =~= Seq::<Seq<char>>::empty());
    } else {
        let rest = es.drop_last();
        assert forall|k: int| 0 <= k < rest.len() implies g.has_method((#[trigger] rest[k]).target@) by {
            assert(rest[k] == es[k]);
        }
        lemma_callee_ids_along(g, rest, s, t);
        let e = es.last();
        let prev = g.callees_along(rest, s);
        assert(g.has_method(e.target@));
        lemma_node_id(g, e.target@);
        if e.source@ == s {
            assert(ids_of(g.callees_along(es, s)) =~= ids_of(prev).push(e.target@));
            lemma_push_contains(ids_of(prev), e.target@, t);
        } else {
            assert(g.callees_along(es, s) == prev);
        }
        if exists|k: int| 0 <= k < rest.len() && (#[trigger] rest[k]).source@ == s && rest[k].target@ == t {
            let k = choose|k: int| 0 <= k < rest.len() && (#[trigger] rest[k]).source@ == s && rest[k].target@ == t;
            assert(es[k] == rest[k]);
        }
        if exists|k: int| 0 <= k < es.len() && (#[trigger] es[k]).source@ == s && es[k].target@ == t {
            let k = choose|k: int| 0 <= k < es.len() && (#[trigger] es[k]).source@ == s && es[k].target@ == t;
            if k < rest.len() {
                assert(rest[k] == es[k]);
            }
        }
    }
}

proof fn lemma_caller_ids_along(g: GraphModel, es: Seq<CallRelationship>, s: Seq<char>, t: Seq<char>)
    requires
        forall|k: int| 0 <= k < es.len() ==> g.has_method((#[trigger] es[k]).source@),
    ensures
        ids_of(g.callers_along(es, t)).contains(s) <==> exists|k: int|
            0 <= k < es.len() && (#[trigger] es[k]).source@ == s && es[k].target@ == t,
    decreases es.len(),
{
    if es.len() == 0 {
        assert(ids_of(g.callers_along(es, t)) =~= Seq::<Seq<char>>::empty());
    } else {
        let rest = es.drop_last();
        assert forall|k: int| 0 <= k < rest.len() implies g.has_method((#[trigger] rest[k]).source@) by {
            assert(rest[k] == es[k]);
        }
        lemma_caller_ids_along(g, rest, s, t);
        let e = es.last();
        let prev = g.callers_along(rest, t);
        assert(g.has_method(e.source@));
        lemma_node_id(g, e.source@);
        if e.target@ == t {
            assert(ids_of(g.callers_along(es, t)) =~= ids_of(prev).push(e.source@));
            lemma_push_contains(ids_of(prev), e.source@, s);
        } else {
            assert(g.callers_along(es, t) == prev);
        }
        if exists|k: int| 0 <= k < rest.len() && (#[trigger] rest[k]).source@ == s && rest[k].target@ == t {
            let k = choose|k: int| 0 <= k < rest.len() && (#[trigger] rest[k]).source@ == s && rest[k].target@ == t;
            assert(es[k] == rest[k]);
        }
        if exists|k: int| 0 <= k < es.len() && (#[trigger] es[k]).source@ == s && es[k].target@ == t {
            let k = choose|k: int| 0 <= k < es.len() && (#[trigger] es[k]).source@ == s && es[k].target@ == t;
            if k < rest.len() {
                assert(rest[k] == es[k]);
            }
        }
    }
}

/// In a graph whose edges join methods of the graph, for any identifiers
/// `s` and `t`: `t` is among the callees of `s` exactly when an edge goes
/// from `s` to `t`, which is exactly when `s` is among the callers of `t`.
pub proof fn lemma_callers_callees_agree(g: GraphModel, s: Seq<char>, t: Seq<char>)
    requires
        g.edges_valid(),
    ensures
        ids_of(g.callees(s)).contains(t) <==> g.has_edge(s, t),
        ids_of(g.callers(t)).contains(s) <==> g.has_edge(s, t),
{
    lemma_callee_ids_along(g, g.edges, s, t);
    lemma_caller_ids_along(g, g.edges, s, t);
}

/// After inserting `nodes` one after another, looking up the identifier of
/// a node that no later node replaces gives that node; offering edges
/// afterwards changes no lookup.
pub proof fn lemma_add_methods_lookup(g: GraphModel, nodes: Seq<MethodNode>, i: int, es: Seq<CallRelationship>)
    requires
        0 <= i < nodes.len(),
        forall|j: int| i < j < nodes.len() ==> (#[trigger] nodes[j]).id@ != nodes[i].id@,
    ensures
        g.add_methods(nodes).lookup(nodes[i].id@) == Some(nodes[i]),
        g.add_methods(nodes).add_edges(es).lookup(nodes[i].id@) == Some(nodes[i]),
    decreases nodes.len(),
{
    let init = nodes.drop_last();
    let prev = g.add_methods(init);
    lemma_add_method(prev, nodes.last());
    if i < nodes.len() - 1 {
        assert(nodes.last().id@ != nodes[i].id@);
        assert forall|j: int| i < j < init.len() implies (#[trigger] init[j]).id@ != init[i].id@ by {
            assert(init[j] == nodes[j]);
        }
        lemma_add_methods_lookup(g, init, i, es);
        assert(init[i] == nodes[i]);
    }
    lemma_add_edges(g.add_methods(nodes), es);
    assert(g.add_methods(nodes).add_edges(es).methods == g.add_methods(nodes).methods);
}

/// Merging keeps a well-formed graph well formed, keeps the node of every
/// identifier it already had, and offers no node for an identifier it did
/// not already have or receive.
pub proof fn lemma_merge(g: GraphModel, h: GraphModel)
    ensures
        g.well_formed() ==> g.merge(h).well_formed(),
        forall|id: Seq<char>| g.has_method(id) ==> #[trigger] g.merge(h).lookup(id) == g.lookup(id),
        forall|id: Seq<char>| #[trigger] g.merge(h).has_method(id) ==> g.has_method(id) || h.has_method(id),
        forall|id: Seq<char>| h.has_method(id) ==> #[trigger] g.merge(h).has_method(id),
{
    lemma_add_missing_methods(g, h.methods);
    let m = g.add_missing_methods(h.methods);
    lemma_add_edges(m, h.edges);
    let r = g.merge(h);
    assert(r.methods == m.methods);
    assert forall|id: Seq<char>| #[trigger] r.has_method(id) == m.has_method(id) && r.lookup(id) == m.lookup(id) by {
    }
    assert forall|id: Seq<char>| h.has_method(id) implies #[trigger] r.has_method(id) by {
        let i = choose|i: int| is_first_with_id(h.methods, id, i);
        assert(h.methods[i].id@ == id);
        assert(m.has_method(id));
    }
    assert forall|id: Seq<char>| #[trigger] r.has_method(id) implies g.has_method(id) || h.has_method(id) by {
        assert(m.has_method(id));
        if !g.has_method(id) {
            let i = choose|i: int| 0 <= i < h.methods.len() && (#[trigger] h.methods[i]).id@ == id;
            lemma_has_first(h.methods, id, i);
        }
    }
}

proof fn lemma_add_missing_methods(g: GraphModel, nodes: Seq<MethodNode>)
    ensures
        g.well_formed() ==> g.add_missing_methods(nodes).well_formed(),
        g.add_missing_methods(nodes).edges == g.edges,
        forall|id: Seq<char>| g.has_method(id) ==> #[trigger] g.add_missing_methods(nodes).lookup(id) == g.lookup(id),
        forall|id: Seq<char>| #[trigger] g.add_missing_methods(nodes).has_method(id) <==> (g.has_method(id) || exists|i: int| 0 <= i < nodes.len() && (#[trigger] nodes[i]).id@ == id),
    decreases nodes.len(),
{
    if nodes.len() > 0 {
        let rest = nodes.drop_last();
        lemma_add_missing_methods(g, rest);
        let a = g.add_missing_methods(rest);
        let x = nodes.last();
        lemma_add_method(a, x);
        assert forall|id: Seq<char>| #[trigger] g.add_missing_methods(nodes).has_method(id) <==> (g.has_method(id) || exists|i: int| 0 <= i < nodes.len() && (#[trigger] nodes[i]).id@ == id) by {
            if exists|i: int| 0 <= i < rest.len() && (#[trigger] rest[i]).id@ == id {
                let i = choose|i: int| 0 <= i < rest.len() && (#[trigger] rest[i]).id@ == id;
                assert(nodes[i] == rest[i]);
            }
            if exists|i: int| 0 <= i < nodes.len() && (#[trigger] nodes[i]).id@ == id {
                let i = choose|i: int| 0 <= i < nodes.len() && (#[trigger] nodes[i]).id@ == id;
                if i < rest.len() {
                    assert(nodes[i] == rest[i]);
                }
            }
        }
    }
}

proof fn lemma_add_edges(g: GraphModel, es: Seq<CallRelationship>)
    ensures
        g.well_formed() ==> g.add_edges(es).well_formed(),
        g.add_edges(es).methods == g.methods,
    decreases es.len(),
{
    if es.len() > 0 {
        lemma_add_edges(g, es.drop_last());
        lemma_add_edge(g.add_edges(es.drop_last()), es.last());
    }
}

proof fn lemma_add_missing_present(g: GraphModel, nodes: Seq<MethodNode>)
    requires
        forall|i: int| 0 <= i < nodes.len() ==> g.has_method((#[trigger] nodes[i]).id@),
    ensures
        g.add_missing_methods(nodes) == g,
    decreases nodes.len(),
{
    if nodes.len() > 0 {
        let rest = nodes.drop_last();
        assert forall|i: int| 0 <= i < rest.len() implies g.has_method((#[trigger] rest[i]).id@) by {
            assert(rest[i] == nodes[i]);
        }
        lemma_add_missing_present(g, rest);
        assert(g.has_method(nodes[nodes.len() - 1].id@));
    }
}

proof fn lemma_add_edges_present(g: GraphModel, es: Seq<CallRelationship>)
    requires
        forall|k: int| 0 <= k < es.len() ==> g.has_edge((#[trigger] es[k]).source@, es[k].target@),
    ensures
        g.add_edges(es) == g,
    decreases es.len(),
{
    if es.len() > 0 {
        let rest = es.drop_last();
        assert forall|k: int| 0 <= k < rest.len() implies g.has_edge((#[trigger] rest[k]).source@, rest[k].target@) by {
            assert(rest[k] == es[k]);
        }
        lemma_add_edges_present(g, rest);
        assert(g.has_edge(es[es.len() - 1].source@, es[es.len() - 1].target@));
    }
}

/// Merging a graph into itself changes nothing.
pub proof fn lemma_merge_idempotent(g: GraphModel)
    ensures
        g.merge(g) == g,
{
    assert forall|i: int| 0 <= i < g.methods.len() implies g.has_method((#[trigger] g.methods[i]).id@) by {
        lemma_has_first(g.methods, g.methods[i].id@, i);
    }
    lemma_add_missing_present(g, g.methods);
    assert forall|k: int| 0 <= k < g.edges.len() implies g.has_edge((#[trigger] g.edges[k]).source@, g.edges[k].target@) by {
    }
    lemma_add_edges_present(g, g.edges);
}

impl MethodGraph {
    /// An empty graph.
    pub fn new() -> (g: Self)
        ensures
            g@ == GraphModel::empty(),
            g@.well_formed(),
    {
        let g = MethodGraph { methods: Vec::new(), edges: Vec::new() };
        assert(g@ =~= GraphModel::empty());
        g
    }

    /// The position of the node with identifier `id`, if any.
    pub fn method_index(&self, id: &MethodId) -> (r: Option<usize>)
        ensures
            match r {
                Some(i) => self@.has_method(id@) && i as int == self@.index_of(id@),
                None => !self@.has_method(id@),
            },
    {
        let n = self.methods.len();
        let mut i: usize = 0;
        while i < n
            invariant
                n == self.methods.len(),
                i <= n,
                forall|j: int| 0 <= j < i ==> (#[trigger] self.methods@[j]).id@ != id@,
            decreases n - i,
        {
            if self.methods[i].id.same_as(id) {
                proof {
                    assert(is_first_with_id(self.methods@, id@, i as int));
                    lemma_first_unique(self.methods@, id@, i as int, self@.index_of(id@));
                }
                return Some(i);
            }
            i = i + 1;
        }
        proof {
            lemma_has_method_iff(self@, id@);
        }
        None
    }

    /// Whether a node has identifier `id`.
    pub fn contains_method(&self, id: &MethodId) -> (b: bool)
        ensures
            b == self@.has_method(id@),
    {
        match self.method_index(id) {
            Some(_) => true,
            None => false,
        }
    }

    /// The node with identifier `id`, if any.
    pub fn get_method(&self, id: &MethodId) -> (r: Option<&MethodNode>)
        ensures
            match r {
                Some(n) => self@.lookup(id@) == Some(*n),
                None => self@.lookup(id@) is None,
            },
    {
        match self.method_index(id) {
            Some(i) => Some(&self.methods[i]),
            None => None,
        }
    }

    /// Insert `node`, replacing any node with the same identifier.
    pub fn add_method(&mut self, node: MethodNode)
        ensures
            final(self)@ == old(self)@.add_method(node),
            final(self)@.lookup(node.id@) == Some(node),
            forall|k: Seq<char>| k != node.id@ ==> #[trigger] final(self)@.lookup(k) == old(self)@.lookup(k),
            old(self)@.well_formed() ==> final(self)@.well_formed(),
    {
        proof {
            lemma_add_method(self@, node);
        }
        match self.method_index(&node.id) {
            Some(i) => {
                self.methods.set(i, node);
            },
            None => {
                self.methods.push(node);
            },
        }
        assert(self@ =~= old(self)@.add_method(node));
    }

    /// Whether some edge goes from `source` to `target`.
    pub fn contains_edge(&self, source: &MethodId, target: &MethodId) -> (b: bool)
        ensures
            b == self@.has_edge(source@, target@),
    {
        let n = self.edges.len();
        for k in 0..n
            invariant
                n == self.edges.len(),
                forall|j: int| 0 <= j < k ==> !((#[trigger] self.edges@[j]).source@ == source@ && self.edges@[j].target@ == target@),
        {
            if self.edges[k].source.same_as(source) && self.edges[k].target.same_as(target) {
                return true;
            }
        }
        false
    }

    /// Add `edge`, dropping self-loops, edges whose ends are not in the
    /// graph, and duplicates of an existing `(source, target)` pair.
    pub fn add_edge(&mut self, edge: CallRelationship)
        ensures
            final(self)@ == old(self)@.add_edge(edge),
            old(self)@.well_formed() ==> final(self)@.well_formed(),
    {
        proof {
            lemma_add_edge(self@, edge);
        }
        if edge.source.same_as(&edge.target) {
            return;
        }
        if !self.contains_method(&edge.source) || !self.contains_method(&edge.target) {
            return;
        }
        if !self.contains_edge(&edge.source, &edge.target) {
            self.edges.push(edge);
            assert(self@ =~= old(self)@.add_edge(edge));
        }
    }

    /// All methods that directly call `target`, in edge order.
    pub fn callers_of(&self, target: &MethodId) -> (res: Vec<&MethodNode>)
        ensures
            res@.map_values(|r: &MethodNode| *r) == self@.callers(target@),
    {
        let mut res: Vec<&MethodNode> = Vec::new();
        let n = self.edges.len();
        for k in 0..n
            invariant
                n == self.edges.len(),
                res@.map_values(|r: &MethodNode| *r) == self@.callers_along(self.edges@.take(k as int), target@),
        {
            let ghost before = res@.map_values(|r: &MethodNode| *r);
            assert(self.edges@.take(k + 1).drop_last() =~= self.edges@.take(k as int));
            let e = &self.edges[k];
            if e.target.same_as(target) {
                match self.method_index(&e.source) {
                    Some(i) => {
                        res.push(&self.methods[i]);
                        assert(res@.map_values(|r: &MethodNode| *r) =~= before.push(self.methods@[i as int]));
                    },
                    None => {},
                }
            }
        }
        assert(self.edges@.take(n as int) =~= self.edges@);
        res
    }

    /// All methods that `source` directly calls, in edge order.
    pub fn callees_of(&self, source: &MethodId) -> (res: Vec<&MethodNode>)
        ensures
            res@.map_values(|r: &MethodNode| *r) == self@.callees(source@),
    {
        let mut res: Vec<&MethodNode> = Vec::new();
        let n = self.edges.len();
        for k in 0..n
            invariant
                n == self.edges.len(),
                res@.map_values(|r: &MethodNode| *r) == self@.callees_along(self.edges@.take(k as int), source@),
        {
            let ghost before = res@.map_values(|r: &MethodNode| *r);
            assert(self.edges@.take(k + 1).drop_last() =~= self.edges@.take(k as int));
            let e = &self.edges[k];
            if e.source.same_as(source) {
                match self.method_index(&e.target) {
                    Some(i) => {
                        res.push(&self.methods[i]);
                        assert(res@.map_values(|r: &MethodNode| *r) =~= before.push(self.methods@[i as int]));
                    },
                    None => {},
                }
            }
        }
        assert(self.edges@.take(n as int) =~= self.edges@);
        res
    }

    /// A copy of this graph.
    pub fn duplicate(&self) -> (r: Self)
        ensures
            r@ == self@,
    {
        let mut methods: Vec<MethodNode> = Vec::new();
        for i in 0..self.methods.len()
            invariant
                methods@ == self.methods@.take(i as int),
        {
            methods.push(self.methods[i].duplicate());
            assert(methods@ =~= self.methods@.take(i + 1));
        }
        let mut edges: Vec<CallRelationship> = Vec::new();
        for i in 0..self.edges.len()
            invariant
                edges@ == self.edges@.take(i as int),
        {
            edges.push(self.edges[i].duplicate());
            assert(edges@ =~= self.edges@.take(i + 1));
        }
        assert(self.methods@.take(self.methods@.len() as int) =~= self.methods@);
        assert(self.edges@.take(self.edges@.len() as int) =~= self.edges@);
        let r = MethodGraph { methods, edges };
        assert(r@.methods == self@.methods && r@.edges == self@.edges);
        r
    }
}

} // verus!
