//! A graph held as adjacency lists of owned node values.
use vstd::prelude::*;

verus! {

/// Ways a graph operation can fail.
#[derive(Debug, PartialEq, Eq)]
pub enum GraphErr {
    NodeNotFound,
    LoopViolation,
    SelfLoopViolation,
}

/// The result of a graph operation.
pub type GraphResult<T> = Result<T, GraphErr>;

/// A graph node's position in the node list.
pub type NodeId = usize;

/// A value that can stand as a graph node: it can be compared and copied.
pub trait Node: Sized {
    /// When two node values name the same node.
    spec fn eq_spec(&self, other: &Self) -> bool;

    /// Node equality is reflexive.
    proof fn eq_spec_refl(&self)
        ensures
            self.eq_spec(self),
    ;

    /// Node equality is symmetric.
    proof fn eq_spec_sym(&self, other: &Self)
        ensures
            self.eq_spec(other) == other.eq_spec(self),
    ;

    /// Compares two node values.
    fn same(&self, other: &Self) -> (r: bool)
        ensures
            r == self.eq_spec(other),
    ;

    /// Copies the node value.
    fn duplicate(&self) -> (r: Self)
        ensures
            r == *self,
    ;
}

impl Node for String {
    open spec fn eq_spec(&self, other: &Self) -> bool {
        self@ == other@
    }

    proof fn eq_spec_refl(&self) {
    }

    proof fn eq_spec_sym(&self, other: &Self) {
    }

    fn same(&self, other: &Self) -> (r: bool) {
        self.eq(other)
    }

    fn duplicate(&self) -> (r: Self) {
        self.clone()
    }
}

impl Node for u64 {
    open spec fn eq_spec(&self, other: &Self) -> bool {
        self == other
    }

    proof fn eq_spec_refl(&self) {
    }

    proof fn eq_spec_sym(&self, other: &Self) {
    }

    fn same(&self, other: &Self) -> (r: bool) {
        *self == *other
    }

    fn duplicate(&self) -> (r: Self) {
        *self
    }
}

/// The abstract state of a graph: its flags, its nodes in insertion order,
/// and, for each node, the nodes its outgoing edges reach.
#[verifier::ext_equal]
pub struct GraphModel<N> {
    pub directed: bool,
    pub loop_allowed: bool,
    pub nodes: Seq<N>,
    pub edges_of: Seq<Seq<N>>,
}

/// Whether some element of `s` names the same node as `n`.
pub open spec fn spec_contains<N: Node>(s: Seq<N>, n: N) -> bool {
    exists|i: int| 0 <= i < s.len() && n.eq_spec(&(#[trigger] s[i]))
}

/// The position of the first element of `s` naming the same node as `n`,
/// or `-1` if there is none.
pub open spec fn spec_find<N: Node>(s: Seq<N>, n: N, i: int) -> int
    decreases s.len() - i when 0 <= i <= s.len()
{
    if i >= s.len() {
        -1
    } else if n.eq_spec(&s[i]) {
        i
    } else {
        spec_find(s, n, i + 1)
    }
}

/// The edges of the first `i` rows, as `(head, tail)` pairs: each row `j`
/// contributes one pair per stored head, with node `j` as the tail.
pub open spec fn spec_edge_list<N>(nodes: Seq<N>, edges_of: Seq<Seq<N>>, i: int) -> Seq<(N, N)>
    decreases i,
{
    if i <= 0 {
        Seq::empty()
    } else {
        spec_edge_list(nodes, edges_of, i - 1) + edges_of[i - 1].map_values(
            |h: N| (h, nodes[i - 1]),
        )
    }
}

/// One edge, from `tail` to `head`.
pub struct Edge<N> {
    pub head: N,
    pub tail: N,
}

/// Walks a list of edges.
pub struct EdgeIterator<N> {
    edges: Vec<Edge<N>>,
    index: usize,
}

/// The pair form of an edge list.
pub open spec fn edge_pairs<N>(edges: Seq<Edge<N>>) -> Seq<(N, N)> {
    edges.map_values(|e: Edge<N>| (e.head, e.tail))
}

impl<N: Node> EdgeIterator<N> {
    /// The edges not yet handed out, as `(head, tail)` pairs.
    pub closed spec fn remaining(&self) -> Seq<(N, N)> {
        if self.index as int <= self.edges@.len() {
            edge_pairs(self.edges@).skip(self.index as int)
        } else {
            Seq::empty()
        }
    }

    /// Hands out the next edge, oldest first.
    pub fn next(&mut self) -> (r: Option<Edge<N>>)
        ensures
            old(self).remaining().len() == 0 ==> r is None && final(self).remaining()
                == old(self).remaining(),
            old(self).remaining().len() > 0 ==> (r matches Some(e) && (e.head, e.tail) == old(
                self,
            ).remaining()[0] && final(self).remaining() == old(self).remaining().drop_first()),
    {
        if self.index >= self.edges.len() {
            proof {
                if self.index as int <= self.edges@.len() {
                    assert(self.remaining() =~= Seq::<(N, N)>::empty());
                }
            }
            None
        } else {
            let e = Edge {
                head: self.edges[self.index].head.duplicate(),
                tail: self.edges[self.index].tail.duplicate(),
            };
            self.index = self.index + 1;
            proof {
                assert(final(self).remaining() =~= old(self).remaining().drop_first());
                assert((e.head, e.tail) == old(self).remaining()[0]);
            }
            Some(e)
        }
    }
}

/// The graph operations this module provides.
pub trait Graph<N: Node>: Sized + View<V = GraphModel<N>> {
    /// The number of edges at a node; defined here for undirected graphs
    /// only.
    fn degree(&self, n: &N) -> (r: GraphResult<usize>)
        requires
            !self@.directed,
        ensures
            ({
                let ix = spec_find(self@.nodes, *n, 0);
                if ix < 0 {
                    r == GraphResult::<usize>::Err(GraphErr::NodeNotFound)
                } else {
                    r == GraphResult::<usize>::Ok(self@.edges_of[ix].len() as usize)
                }
            }),
    ;

    /// Whether edges have a direction.
    fn is_directed(&self) -> (r: bool)
        ensures
            r == self@.directed,
    ;

    /// Whether the node is in the graph.
    fn contains_node(&self, n: &N) -> (r: bool)
        ensures
            r == spec_contains(self@.nodes, *n),
    ;

    /// The nodes, in insertion order.
    fn nodes(&self) -> (r: Vec<N>)
        ensures
            r@ == self@.nodes,
    ;

    /// All edges, as an iterator over `(head, tail)` pairs, tails in node
    /// order and heads in insertion order.
    fn edges(&self) -> (r: EdgeIterator<N>)
        ensures
            r.remaining() == spec_edge_list(
                self@.nodes,
                self@.edges_of,
                self@.nodes.len() as int,
            ),
    ;

    /// Adds a node; reports false if a node of the same name was present.
    fn add_node(&mut self, n: &N) -> (r: bool)
        ensures
            r == !spec_contains(old(self)@.nodes, *n),
            r ==> final(self)@ == (GraphModel {
                nodes: old(self)@.nodes.push(*n),
                edges_of: old(self)@.edges_of.push(Seq::empty()),
                ..old(self)@
            }),
            !r ==> final(self)@ == old(self)@,
    ;

    /// Adds an edge between two present nodes. In a directed graph the edge
    /// runs from `tail` to `head` and only `tail` must be present; in an
    /// undirected graph both ends must be present and the edge is stored in
    /// both directions. Reports false if nothing new was stored.
    fn add_edge(&mut self, head: &N, tail: &N) -> (r: GraphResult<bool>)
        ensures
            add_edge_spec(old(self)@, *head, *tail, r, final(self)@),
    ;
}

/// What `add_edge` must do, relating the old and new graph states.
pub open spec fn add_edge_spec<N: Node>(
    pre: GraphModel<N>,
    head: N,
    tail: N,
    r: GraphResult<bool>,
    post: GraphModel<N>,
) -> bool {
    let t = spec_find(pre.nodes, tail, 0);
    let h = spec_find(pre.nodes, head, 0);
    if pre.directed {
        if t < 0 {
            r == GraphResult::<bool>::Err(GraphErr::NodeNotFound) && post == pre
        } else if spec_contains(pre.edges_of[t], head) {
            r == GraphResult::<bool>::Ok(false) && post == pre
        } else {
            r == GraphResult::<bool>::Ok(true) && post == (GraphModel {
                edges_of: pre.edges_of.update(t, pre.edges_of[t].push(head)),
                ..pre
            })
        }
    } else {
        if t < 0 || h < 0 {
            r == GraphResult::<bool>::Err(GraphErr::NodeNotFound) && post == pre
        } else {
            let add_th = !spec_contains(pre.edges_of[t], head);
            let mid_edges = if add_th {
                pre.edges_of.update(t, pre.edges_of[t].push(head))
            } else {
                pre.edges_of
            };
            let add_ht = !spec_contains(mid_edges[h], tail);
            let end_edges = if add_ht {
                mid_edges.update(h, mid_edges[h].push(tail))
            } else {
                mid_edges
            };
            r == GraphResult::<bool>::Ok(add_th || add_ht) && post == (GraphModel {
                edges_of: end_edges,
                ..pre
            })
        }
    }
}

/// The graph itself: flags and one `(node, outgoing heads)` row per node.
pub struct GraphData<N: Node> {
    directed: bool,
    loop_allowed: bool,
    table: Vec<(N, Vec<N>)>,
}

impl<N: Node> View for GraphData<N> {
    type V = GraphModel<N>;

    closed spec fn view(&self) -> GraphModel<N> {
        GraphModel {
            directed: self.directed,
            loop_allowed: self.loop_allowed,
            nodes: self.table@.map_values(|p: (N, Vec<N>)| p.0),
            edges_of: self.table@.map_values(|p: (N, Vec<N>)| p.1@),
        }
    }
}

/// Finds the first element of `v` naming the same node as `n`.
fn find_in<N: Node>(v: &Vec<N>, n: &N) -> (r: Option<usize>)
    ensures
        r matches Some(ix) ==> 0 <= ix < v@.len() && ix == spec_find(v@, *n, 0),
        r is None ==> spec_find(v@, *n, 0) == -1,
        (r is Some) == spec_contains(v@, *n),
{
    let len = v.len();
    let mut i: usize = 0;
    while i < len
        invariant
            0 <= i <= len,
            len == v@.len(),
            spec_find(v@, *n, 0) == spec_find(v@, *n, i as int),
            forall|j: int| 0 <= j < i ==> !n.eq_spec(&(#[trigger] v@[j])),
        decreases len - i,
    {
        if n.same(&v[i]) {
            proof {
                assert(spec_contains(v@, *n));
            }
            return Some(i);
        }
        i = i + 1;
    }
    proof {
        if spec_contains(v@, *n) {
            let j = choose|j: int| 0 <= j < v@.len() && n.eq_spec(&v@[j]);
            assert(!n.eq_spec(&v@[j]));
        }
    }
    None
}

/// Finds the first row of `table` whose node names the same node as `n`.
fn find_row<N: Node>(table: &Vec<(N, Vec<N>)>, n: &N) -> (r: Option<usize>)
    ensures
        ({
            let nodes = table@.map_values(|p: (N, Vec<N>)| p.0);
            &&& (r matches Some(ix) ==> 0 <= ix < nodes.len() && ix == spec_find(nodes, *n, 0))
            &&& (r is None ==> spec_find(nodes, *n, 0) == -1)
            &&& (r is Some) == spec_contains(nodes, *n)
        }),
{
    let ghost nodes = table@.map_values(|p: (N, Vec<N>)| p.0);
    let len = table.len();
    let mut i: usize = 0;
    while i < len
        invariant
            nodes == table@.map_values(|p: (N, Vec<N>)| p.0),
            0 <= i <= len,
            len == nodes.len() == table@.len(),
            spec_find(nodes, *n, 0) == spec_find(nodes, *n, i as int),
            forall|j: int| 0 <= j < i ==> !n.eq_spec(&(#[trigger] nodes[j])),
        decreases len - i,
    {
        if n.same(&table[i].0) {
            proof {
                assert(n.eq_spec(&nodes[i as int]));
                assert(spec_contains(nodes, *n));
            }
            return Some(i);
        }
        i = i + 1;
    }
    proof {
        if spec_contains(nodes, *n) {
            let j = choose|j: int| 0 <= j < nodes.len() && n.eq_spec(&nodes[j]);
            assert(!n.eq_spec(&nodes[j]));
        }
    }
    None
}

impl<N: Node> Graph<N> for GraphData<N> {
    fn degree(&self, n: &N) -> (r: GraphResult<usize>) {
        match find_row(&self.table, n) {
            Some(ix) => Ok(self.table[ix].1.len()),
            None => Err(GraphErr::NodeNotFound),
        }
    }

    fn is_directed(&self) -> (r: bool) {
        self.directed
    }

    fn contains_node(&self, n: &N) -> (r: bool) {
        match find_row(&self.table, n) {
            Some(_) => true,
            None => false,
        }
    }

    fn nodes(&self) -> (r: Vec<N>) {
        let n = self.table.len();
        let mut out: Vec<N> = Vec::new();
        let mut i: usize = 0;
        while i < n
            invariant
                0 <= i <= n,
                n == self@.nodes.len() == self.table@.len(),
                out@ =~= self@.nodes.take(i as int),
            decreases n - i,
        {
            out.push(self.table[i].0.duplicate());
            i = i + 1;
            proof {
                assert(out@ =~= self@.nodes.take(i as int));
            }
        }
        proof {
            assert(self@.nodes.take(n as int) =~= self@.nodes);
        }
        out
    }

    fn edges(&self) -> (r: EdgeIterator<N>) {
        let mut edges: Vec<Edge<N>> = Vec::new();
        let n = self.table.len();
        let mut i: usize = 0;
        proof {
            assert(edge_pairs(edges@) =~= spec_edge_list(self@.nodes, self@.edges_of, 0));
        }
        while i < n
            invariant
                0 <= i <= n,
                n == self@.nodes.len() == self.table@.len(),
                self@.edges_of.len() == n,
                edge_pairs(edges@) == spec_edge_list(self@.nodes, self@.edges_of, i as int),
            decreases n - i,
        {
            let row_len = self.table[i].1.len();
            let mut k: usize = 0;
            while k < row_len
                invariant
                    0 <= i < n,
                    0 <= k <= row_len,
                    n == self@.nodes.len() == self.table@.len(),
                    self@.edges_of.len() == n,
                    row_len == self@.edges_of[i as int].len(),
                    edge_pairs(edges@) == spec_edge_list(self@.nodes, self@.edges_of, i as int)
                        + self@.edges_of[i as int].map_values(
                        |h: N| (h, self@.nodes[i as int]),
                    ).take(k as int),
                decreases row_len - k,
            {
                let ghost before = edges@;
                let e = Edge {
                    head: self.table[i].1[k].duplicate(),
                    tail: self.table[i].0.duplicate(),
                };
                edges.push(e);
                k = k + 1;
                proof {
                    let row = self@.edges_of[i as int].map_values(
                        |h: N| (h, self@.nodes[i as int]),
                    );
                    assert(edge_pairs(edges@) =~= edge_pairs(before).push(
                        (self@.edges_of[i as int][k - 1], self@.nodes[i as int]),
                    ));
                    assert(row.take(k as int) =~= row.take(k - 1).push(row[k - 1]));
                    assert(edge_pairs(edges@) =~= spec_edge_list(
                        self@.nodes,
                        self@.edges_of,
                        i as int,
                    ) + row.take(k as int));
                }
            }
            i = i + 1;
            proof {
                let row = self@.edges_of[i - 1].map_values(|h: N| (h, self@.nodes[i - 1]));
                assert(row.take(row.len() as int) =~= row);
                assert(edge_pairs(edges@) =~= spec_edge_list(
                    self@.nodes,
                    self@.edges_of,
                    i as int,
                ));
            }
        }
        let r = EdgeIterator { edges, index: 0 };
        proof {
            assert(r.remaining() =~= spec_edge_list(
                self@.nodes,
                self@.edges_of,
                self@.nodes.len() as int,
            ));
        }
        r
    }

    fn add_node(&mut self, n: &N) -> (r: bool) {
        match find_row(&self.table, n) {
            Some(_) => false,
            None => {
                self.table.push((n.duplicate(), Vec::new()));
                proof {
                    assert(final(self)@ =~= (GraphModel {
                        nodes: old(self)@.nodes.push(*n),
                        edges_of: old(self)@.edges_of.push(Seq::empty()),
                        ..old(self)@
                    }));
                }
                true
            },
        }
    }

    fn add_edge(&mut self, head: &N, tail: &N) -> (r: GraphResult<bool>) {
        if self.directed {
            match find_row(&self.table, tail) {
                None => Err(GraphErr::NodeNotFound),
                Some(t) => {
                    let ghost pre = self@;
                    match find_in(&self.table[t].1, head) {
                        Some(_) => Ok(false),
                        None => {
                            let ghost rows0 = self.table@;
                            let mut entry = self.table.remove(t);
                            entry.1.push(head.duplicate());
                            self.table.insert(t, entry);
                            proof {
                                assert(self.table@ =~= rows0.update(t as int, entry));
                                assert(self@ =~= (GraphModel {
                                    edges_of: pre.edges_of.update(
                                        t as int,
                                        pre.edges_of[t as int].push(*head),
                                    ),
                                    ..pre
                                }));
                            }
                            Ok(true)
                        },
                    }
                },
            }
        } else {
            let t_found = find_row(&self.table, tail);
            let h_found = find_row(&self.table, head);
            match (t_found, h_found) {
                (Some(t), Some(h)) => {
                    let ghost pre = self@;
                    let mut added = false;
                    let need_th = match find_in(&self.table[t].1, head) {
                        Some(_) => false,
                        None => true,
                    };
                    if need_th {
                        let ghost rows0 = self.table@;
                        let mut entry = self.table.remove(t);
                        entry.1.push(head.duplicate());
                        self.table.insert(t, entry);
                        added = true;
                        proof {
                            assert(self.table@ =~= rows0.update(t as int, entry));
                        }
                    }
                    let ghost mid = self@;
                    proof {
                        let mid_edges = if !spec_contains(pre.edges_of[t as int], *head) {
                            pre.edges_of.update(t as int, pre.edges_of[t as int].push(*head))
                        } else {
                            pre.edges_of
                        };
                        assert(mid =~= (GraphModel { edges_of: mid_edges, ..pre }));
                    }
                    let need_ht = match find_in(&self.table[h].1, tail) {
                        Some(_) => false,
                        None => true,
                    };
                    if need_ht {
                        let ghost rows1 = self.table@;
                        let mut entry = self.table.remove(h);
                        entry.1.push(tail.duplicate());
                        self.table.insert(h, entry);
                        added = true;
                        proof {
                            assert(self.table@ =~= rows1.update(h as int, entry));
                        }
                    }
                    proof {
                        let mid_edges = mid.edges_of;
                        let end_edges = if !spec_contains(mid_edges[h as int], *tail) {
                            mid_edges.update(h as int, mid_edges[h as int].push(*tail))
                        } else {
                            mid_edges
                        };
                        assert(self@ =~= (GraphModel { edges_of: end_edges, ..pre }));
                    }
                    Ok(added)
                },
                _ => Err(GraphErr::NodeNotFound),
            }
        }
    }
}

/// Builds graphs with chosen flags.
pub struct GraphBuilder {
    pub directed: bool,
    pub loop_allowed: bool,
}

impl GraphBuilder {
    /// Starts from an undirected graph that refuses loops.
    pub fn new() -> (r: GraphBuilder)
        ensures
            r == (GraphBuilder { directed: false, loop_allowed: false }),
    {
        GraphBuilder { directed: false, loop_allowed: false }
    }

    /// Chooses whether edges have a direction.
    pub fn set_directed(self, directed: bool) -> (r: GraphBuilder)
        ensures
            r == (GraphBuilder { directed, ..self }),
    {
        GraphBuilder { directed, ..self }
    }

    /// Chooses whether self-loops are allowed.
    pub fn allow_loop(self, loop_allowed: bool) -> (r: GraphBuilder)
        ensures
            r == (GraphBuilder { loop_allowed, ..self }),
    {
        GraphBuilder { loop_allowed, ..self }
    }

    /// Builds an empty graph with the chosen flags.
    pub fn build<N: Node>(&self) -> (r: GraphData<N>)
        ensures
            r@ == (GraphModel {
                directed: self.directed,
                loop_allowed: self.loop_allowed,
                nodes: Seq::<N>::empty(),
                edges_of: Seq::<Seq<N>>::empty(),
            }),
    {
        let r = GraphData {
            directed: self.directed,
            loop_allowed: self.loop_allowed,
            table: Vec::new(),
        };
        proof {
            assert(r@ =~= (GraphModel {
                directed: self.directed,
                loop_allowed: self.loop_allowed,
                nodes: Seq::<N>::empty(),
                edges_of: Seq::<Seq<N>>::empty(),
            }));
        }
        r
    }
}

/// A placeholder for walking nodes; no operations are defined on it yet.
pub struct NodeIterator<'a, N> {
    pub n: &'a N,
}

} // verus!
