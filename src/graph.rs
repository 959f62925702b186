use vstd::prelude::*;
use crate::schema::{Field, Label, MessageSchema, WireKind};

verus! {

#[verifier::external_type_specification]
#[verifier::external_body]
#[verifier::reject_recursive_types(N)]
#[verifier::reject_recursive_types(E)]
#[verifier::reject_recursive_types(Ty)]
#[verifier::reject_recursive_types(Ix)]
pub struct ExGraph<N, E, Ty, Ix>(petgraph::graph::Graph<N, E, Ty, Ix>);

#[verifier::external_type_specification]
#[verifier::external_body]
pub struct ExDirected(petgraph::Directed);

/// A directed graph over message types, nodes numbered from zero.
pub type TypeGraph = petgraph::graph::Graph<(), (), petgraph::Directed, usize>;

/// The edges of a graph, as pairs of node numbers.
pub uninterp spec fn graph_edges(g: TypeGraph) -> Set<(int, int)>;

/// The number of nodes of a graph.
pub uninterp spec fn graph_node_count(g: TypeGraph) -> nat;

/// A path of `k` edges leads from `a` to `b`.
pub open spec fn path_of(edges: Set<(int, int)>, a: int, b: int, k: nat) -> bool
    decreases k,
{
    if k == 0 {
        a == b
    } else {
        exists|c: int| #[trigger] edges.contains((a, c)) && path_of(edges, c, b, (k - 1) as nat)
    }
}

/// Some path leads from `a` to `b`; every node reaches itself.
pub open spec fn reaches(edges: Set<(int, int)>, a: int, b: int) -> bool {
    exists|k: nat| path_of(edges, a, b, k)
}

/// Relies on petgraph's `Graph::with_capacity`: a graph with no nodes and
/// no edges.
#[verifier::external_body]
fn graph_new() -> (g: TypeGraph)
    ensures
        graph_node_count(g) == 0,
        graph_edges(g) == Set::<(int, int)>::empty(),
{
    petgraph::graph::Graph::with_capacity(0, 0)
}

/// Relies on petgraph's `Graph::add_node`: the new node takes the next
/// number, and the edges stay as they are.
#[verifier::external_body]
fn graph_add_node(g: &mut TypeGraph) -> (r: usize)
    requires
        graph_node_count(*old(g)) < usize::MAX,
    ensures
        r == graph_node_count(*old(g)),
        graph_node_count(*final(g)) == graph_node_count(*old(g)) + 1,
        graph_edges(*final(g)) == graph_edges(*old(g)),
{
    g.add_node(()).index()
}

/// Relies on petgraph's `Graph::add_edge`: it adds the edge from `a` to
/// `b`, and panics unless both nodes exist.
#[verifier::external_body]
fn graph_add_edge(g: &mut TypeGraph, a: usize, b: usize)
    requires
        a < graph_node_count(*old(g)),
        b < graph_node_count(*old(g)),
    ensures
        graph_node_count(*final(g)) == graph_node_count(*old(g)),
        graph_edges(*final(g)) == graph_edges(*old(g)).insert((a as int, b as int)),
{
    g.add_edge(petgraph::graph::NodeIndex::new(a), petgraph::graph::NodeIndex::new(b), ());
}

/// Relies on petgraph's `algo::has_path_connecting`: whether a path leads
/// from `from` to `to`, a node reaching itself.
#[verifier::external_body]
fn graph_has_path(g: &TypeGraph, from: usize, to: usize) -> (r: bool)
    requires
        from < graph_node_count(*g),
        to < graph_node_count(*g),
    ensures
        r == reaches(graph_edges(*g), from as int, to as int),
{
    petgraph::algo::has_path_connecting(
        g,
        petgraph::graph::NodeIndex::new(from),
        petgraph::graph::NodeIndex::new(to),
        None,
    )
}

/// Relies on petgraph's `Graph::contains_edge`: whether the graph has an
/// edge from `a` to `b`.
#[verifier::external_body]
fn graph_has_edge(g: &TypeGraph, a: usize, b: usize) -> (r: bool)
    ensures
        r == graph_edges(*g).contains((a as int, b as int)),
{
    g.contains_edge(petgraph::graph::NodeIndex::new(a), petgraph::graph::NodeIndex::new(b))
}

/// Field `f` makes its message contain one of type `j` directly: it holds a
/// nested message of that type and is not repeated.
pub open spec fn contains_edge(f: Field, j: int) -> bool {
    &&& f.kind == WireKind::Message
    &&& f.label != Label::Repeated
    &&& f.message_type is Some
    &&& f.message_type->Some_0 as int == j
}

/// The edges that fields `0 .. f` of type `i`, and every field of the
/// types before `i`, give: type `a` contains one of type `b` directly.
pub open spec fn edges_upto(schemas: Seq<MessageSchema>, i: int, f: int) -> Set<(int, int)> {
    Set::new(
        |e: (int, int)|
            0 <= e.1 < schemas.len() && ((0 <= e.0 < i && exists|g: int|
                0 <= g < schemas[e.0].fields@.len() && contains_edge(
                    #[trigger] schemas[e.0].fields@[g],
                    e.1,
                )) || (e.0 == i && 0 <= i < schemas.len() && exists|g: int|
                0 <= g < f && contains_edge(#[trigger] schemas[e.0].fields@[g], e.1))),
    )
}

/// The containment edges among the message types `schemas`.
pub open spec fn type_edges(schemas: Seq<MessageSchema>) -> Set<(int, int)> {
    edges_upto(schemas, schemas.len() as int, 0)
}

/// Which message types contain which others, through fields that are not
/// repeated, directly or through other types. Types that reach themselves
/// need a field behind a pointer to have a bounded size.
pub struct MessageGraph {
    graph: TypeGraph,
    count: usize,
}

impl MessageGraph {
    /// The number of message types.
    pub closed spec fn node_count(&self) -> nat {
        self.count as nat
    }

    /// The containment edges among the message types.
    pub closed spec fn edges(&self) -> Set<(int, int)> {
        graph_edges(self.graph)
    }

    pub closed spec fn wf(&self) -> bool {
        &&& graph_node_count(self.graph) == self.count
        &&& forall|e: (int, int)|
            #[trigger] graph_edges(self.graph).contains(e) ==> 0 <= e.0 < self.count && 0 <= e.1
                < self.count
    }

    /// Builds the graph of the message types `schemas`: one node for each,
    /// numbered as they stand, and an edge from a type to each type that a
    /// field of it that is not repeated holds.
    pub fn new(schemas: &[MessageSchema]) -> (r: MessageGraph)
        ensures
            r.wf(),
            r.node_count() == schemas@.len(),
            r.edges() == type_edges(schemas@),
    {
        let n = schemas.len();
        let mut graph = graph_new();
        let mut i: usize = 0;
        while i < n
            invariant
                i <= n == schemas@.len(),
                graph_node_count(graph) == i,
                graph_edges(graph) == Set::<(int, int)>::empty(),
            decreases n - i,
        {
            graph_add_node(&mut graph);
            i = i + 1;
        }
        proof {
            assert(edges_upto(schemas@, 0, 0) =~= Set::<(int, int)>::empty());
        }
        let mut i: usize = 0;
        while i < n
            invariant
                i <= n == schemas@.len(),
                graph_node_count(graph) == n,
                graph_edges(graph) == edges_upto(schemas@, i as int, 0),
            decreases n - i,
        {
            let fields = &schemas[i].fields;
            let mut f: usize = 0;
            while f < fields.len()
                invariant
                    i < n == schemas@.len(),
                    f <= fields@.len(),
                    fields == &schemas@[i as int].fields,
                    graph_node_count(graph) == n,
                    graph_edges(graph) == edges_upto(schemas@, i as int, f as int),
                decreases fields@.len() - f,
            {
                let field = &fields[f];
                let mut added = false;
                if field.kind == WireKind::Message && field.label != Label::Repeated {
                    match field.message_type {
                        Some(j) => if j < n {
                            graph_add_edge(&mut graph, i, j);
                            added = true;
                            proof {
                                assert(contains_edge(schemas@[i as int].fields@[f as int], j as int));
                                assert(graph_edges(graph) =~= edges_upto(
                                    schemas@,
                                    i as int,
                                    f + 1,
                                ));
                            }
                        },
                        None => {},
                    }
                }
                proof {
                    if !added {
                        assert(graph_edges(graph) =~= edges_upto(schemas@, i as int, f + 1));
                    }
                }
                f = f + 1;
            }
            proof {
                assert(edges_upto(schemas@, i as int, fields@.len() as int) =~= edges_upto(
                    schemas@,
                    i + 1,
                    0,
                ));
            }
            i = i + 1;
        }
        assert(edges_upto(schemas@, n as int, 0) == type_edges(schemas@));
        MessageGraph { graph, count: n }
    }

    /// Whether type `outer` contains type `inner`, directly or through
    /// other types, or is that type; `false` where either is unknown.
    pub fn is_nested(&self, outer: usize, inner: usize) -> (r: bool)
        requires
            self.wf(),
        ensures
            r == (outer < self.node_count() && inner < self.node_count() && reaches(
                self.edges(),
                outer as int,
                inner as int,
            )),
    {
        if outer >= self.count || inner >= self.count {
            return false;
        }
        graph_has_path(&self.graph, outer, inner)
    }

    /// Whether type `t` contains itself through one or more edges, so that
    /// some field on the cycle must sit behind a pointer.
    pub fn is_recursive(&self, t: usize) -> (r: bool)
        requires
            self.wf(),
        ensures
            r == (t < self.node_count() && exists|c: int|
                #[trigger] self.edges().contains((t as int, c)) && reaches(self.edges(), c, t as int)),
    {
        if t >= self.count {
            return false;
        }
        let mut c: usize = 0;
        while c < self.count
            invariant
                self.wf(),
                t < self.count,
                c <= self.count,
                forall|d: int|
                    0 <= d < c ==> !(#[trigger] self.edges().contains((t as int, d)) && reaches(
                        self.edges(),
                        d,
                        t as int,
                    )),
            decreases self.count - c,
        {
            if graph_has_edge(&self.graph, t, c) && graph_has_path(&self.graph, c, t) {
                return true;
            }
            c = c + 1;
        }
        proof {
            assert forall|d: int| !(#[trigger] self.edges().contains((t as int, d)) && reaches(
                self.edges(),
                d,
                t as int,
            )) by {
                if self.edges().contains((t as int, d)) {
                    assert(0 <= d < self.count);
                }
            }
        }
        false
    }

    /// Whether a field of type `message` that holds a value of type
    /// `field_type` must sit behind a pointer: the field's type contains
    /// the message, so holding it inline would make the message's size
    /// unbounded.
    pub fn needs_indirection(&self, message: usize, field_type: usize) -> (r: bool)
        requires
            self.wf(),
        ensures
            r == (message < self.node_count() && field_type < self.node_count() && reaches(
                self.edges(),
                field_type as int,
                message as int,
            )),
    {
        self.is_nested(field_type, message)
    }
}

} // verus!
