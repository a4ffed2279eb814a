//! The diagram store: nodes and edges, selection, the connection being
//! drawn, the camera, and undo/redo/clipboard history.

use vstd::prelude::*;
use crate::geometry::{Position, SelectionRect, SnapGrid, Viewport, ZOOM_ONE};
use crate::geometry::{HandlePosition, fits_i64, clamp_zoom, clamp_zoom_exec, zoomed_offset, MIN_ZOOM, MAX_ZOOM};
use crate::arith::floor_div;
use crate::types::{ClipboardData, Connection, ConnectionValidation, DefaultEdgeOptions, Edge, Node, PendingConnection, same_link, same_end_exec};
use vstd::string::StringExecFns;

verus! {

/// Most snapshots the undo stack keeps; the oldest go first.
pub const MAX_HISTORY_SIZE: usize = 100;

/// `s` with the elements whose flag in `drop` is set left out.
pub open spec fn masked<T>(s: Seq<T>, drop: Seq<bool>) -> Seq<T>
    decreases s.len(),
{
    if s.len() == 0 {
        Seq::empty()
    } else {
        let rest = masked(s.drop_last(), drop);
        if drop[s.len() - 1] { rest } else { rest.push(s.last()) }
    }
}

proof fn lemma_masked_len<T>(s: Seq<T>, drop: Seq<bool>)
    ensures
        masked(s, drop).len() <= s.len(),
    decreases s.len(),
{
    if s.len() > 0 {
        lemma_masked_len(s.drop_last(), drop);
    }
}

/// Leaving out the flagged elements is filtering by the negated flag.
proof fn lemma_masked_filter<T>(s: Seq<T>, drop: Seq<bool>, pred: spec_fn(T) -> bool)
    requires
        drop.len() >= s.len(),
        forall|i: int| 0 <= i < s.len() ==> drop[i] == !pred(s[i]),
    ensures
        masked(s, drop) == s.filter(pred),
    decreases s.len(),
{
    reveal(Seq::filter);
    if s.len() > 0 {
        lemma_masked_filter(s.drop_last(), drop, pred);
    }
}

/// Removes, in place, the elements whose flag in `drop` is set.
fn retain_unmasked<T>(v: &mut Vec<T>, drop: &Vec<bool>)
    requires
        drop@.len() == old(v)@.len(),
    ensures
        final(v)@ == masked(old(v)@, drop@),
{
    let ghost orig = v@;
    let n = drop.len();
    let mut k: usize = 0;
    let mut i: usize = 0;
    while k < n
        invariant
            k <= n == drop@.len() == orig.len(),
            v@ == masked(orig.take(k as int), drop@) + orig.skip(k as int),
            i == masked(orig.take(k as int), drop@).len(),
        decreases n - k,
    {
        proof {
            let t = orig.take(k + 1);
            assert(t.drop_last() =~= orig.take(k as int));
            assert(t.last() == orig[k as int]);
            lemma_masked_len(orig.take(k as int), drop@);
            assert(v@[i as int] == orig[k as int]);
        }
        if drop[k] {
            v.remove(i);
            proof {
                assert(v@ =~= masked(orig.take(k + 1), drop@) + orig.skip(k + 1));
            }
        } else {
            proof {
                assert(v@ =~= masked(orig.take(k + 1), drop@) + orig.skip(k + 1));
            }
            i += 1;
        }
        k += 1;
    }
    proof {
        assert(orig.take(n as int) =~= orig);
        assert(v@ =~= masked(orig, drop@));
    }
}

/// Every element left after masking was in the original.
proof fn lemma_masked_contains<T>(s: Seq<T>, drop: Seq<bool>)
    ensures
        forall|i: int| 0 <= i < masked(s, drop).len() ==> s.contains(#[trigger] masked(s, drop)[i]),
    decreases s.len(),
{
    if s.len() > 0 {
        lemma_masked_contains(s.drop_last(), drop);
        let m = masked(s.drop_last(), drop);
        assert forall|i: int| 0 <= i < masked(s, drop).len() implies s.contains(#[trigger] masked(s, drop)[i]) by {
            if i < m.len() {
                assert(s.drop_last().contains(m[i]));
                let j = choose|j: int| 0 <= j < s.drop_last().len() && s.drop_last()[j] == m[i];
                assert(s[j] == m[i]);
            } else {
                assert(s[s.len() - 1] == masked(s, drop)[i]);
            }
        }
    }
}

/// Keys that are pairwise distinct stay so after masking.
proof fn lemma_masked_distinct<T>(s: Seq<T>, drop: Seq<bool>, key: spec_fn(T) -> Seq<char>)
    requires
        forall|i: int, j: int| 0 <= i < s.len() && 0 <= j < s.len() && i != j ==> key(s[i]) != key(s[j]),
    ensures
        forall|i: int, j: int| 0 <= i < masked(s, drop).len() && 0 <= j < masked(s, drop).len() && i != j
            ==> key(masked(s, drop)[i]) != key(masked(s, drop)[j]),
    decreases s.len(),
{
    if s.len() > 0 {
        let p = s.drop_last();
        lemma_masked_distinct(p, drop, key);
        lemma_masked_contains(p, drop);
        let m = masked(p, drop);
        assert forall|i: int| 0 <= i < m.len() implies key(m[i]) != key(s.last()) by {
            assert(p.contains(m[i]));
            let j = choose|j: int| 0 <= j < p.len() && p[j] == m[i];
            assert(s[j] == m[i]);
        }
    }
}

/// The views of a list of strings.
pub open spec fn ids_of(v: Seq<String>) -> Seq<Seq<char>> {
    v.map_values(|s: String| s@)
}

/// No string of `v` occurs twice.
pub open spec fn distinct_ids(v: Seq<String>) -> bool {
    forall|i: int, j: int| 0 <= i < v.len() && 0 <= j < v.len() && i != j ==> v[i]@ != v[j]@
}

/// No two nodes share an id.
pub open spec fn unique_node_ids(ns: Seq<Node>) -> bool {
    forall|i: int, j: int| 0 <= i < ns.len() && 0 <= j < ns.len() && i != j ==> ns[i].id@ != ns[j].id@
}

/// Node `i` carries the id `id`.
pub open spec fn node_at(ns: Seq<Node>, id: Seq<char>, i: int) -> bool {
    0 <= i < ns.len() && ns[i].id@ == id
}

/// Edge `i` is the first with the id `id`.
pub open spec fn first_edge(es: Seq<Edge>, id: Seq<char>, i: int) -> bool {
    &&& 0 <= i < es.len()
    &&& es[i].id@ == id
    &&& forall|j: int| 0 <= j < i ==> es[j].id@ != id
}

/// Node `i` is the first with the id `id`.
pub open spec fn first_node(ns: Seq<Node>, id: Seq<char>, i: int) -> bool {
    &&& node_at(ns, id, i)
    &&& forall|j: int| 0 <= j < i ==> ns[j].id@ != id
}

pub open spec fn unselected_node(n: Node) -> Node {
    Node { selected: false, ..n }
}

pub open spec fn unselected_edge(e: Edge) -> Edge {
    Edge { selected: false, ..e }
}

/// The nodes with their selection marks cleared.
pub open spec fn unselect_nodes(ns: Seq<Node>) -> Seq<Node> {
    ns.map_values(|n: Node| unselected_node(n))
}

/// The edges with their selection marks cleared.
pub open spec fn unselect_edges(es: Seq<Edge>) -> Seq<Edge> {
    es.map_values(|e: Edge| unselected_edge(e))
}

/// Node lists equal element by element, the contents of vectors compared.
pub open spec fn same_nodes(a: Seq<Node>, b: Seq<Node>) -> bool {
    a.len() == b.len() && forall|i: int| 0 <= i < a.len() ==> #[trigger] a[i].same(&b[i])
}

/// A copy of the node and edge collections.
#[derive(Debug)]
pub struct FlowSnapshot {
    pub nodes: Vec<Node>,
    pub edges: Vec<Edge>,
}

impl FlowSnapshot {
    /// The snapshot holds a copy of these nodes and edges.
    pub open spec fn holds(&self, nodes: Seq<Node>, edges: Seq<Edge>) -> bool {
        same_nodes(self.nodes@, nodes) && self.edges@ == edges
    }
}

/// All nodes lie at or below layer `z`.
pub open spec fn layered_below(ns: Seq<Node>, z: int) -> bool {
    forall|i: int| 0 <= i < ns.len() ==> ns[i].z_index <= z
}

/// A snapshot a well-formed diagram may return to.
pub open spec fn snapshot_ok(s: FlowSnapshot, z: int) -> bool {
    unique_node_ids(s.nodes@) && layered_below(s.nodes@, z)
}

/// The whole state of a diagram.
#[derive(Debug)]
pub struct FlowState {
    pub nodes: Vec<Node>,
    pub edges: Vec<Edge>,
    pub viewport: Viewport,
    /// Ids of the selected nodes, in the order they were selected.
    pub selected_nodes: Vec<String>,
    /// Ids of the selected edges, in the order they were selected.
    pub selected_edges: Vec<String>,
    /// The connection being drawn, if any.
    pub connection: Option<Connection>,
    pub snap_grid: SnapGrid,
    pub default_edge_options: DefaultEdgeOptions,
    pub clipboard: ClipboardData,
    pub undo_stack: Vec<FlowSnapshot>,
    pub redo_stack: Vec<FlowSnapshot>,
    /// Layer at or above every node's; "bring to front" goes one higher.
    pub max_z_index: i64,
    pub connection_valid: bool,
}

impl Default for FlowState {
    fn default() -> (r: FlowState)
        ensures
            r.wf(),
            r.nodes@.len() == 0 && r.edges@.len() == 0,
            r.max_z_index == 0,
            r.undo_stack@.len() == 0 && r.redo_stack@.len() == 0,
            r.connection.is_none(),
    {
        FlowState::new()
    }
}

impl FlowState {
    /// The invariant every operation keeps.
    pub open spec fn wf(&self) -> bool {
        &&& self.viewport.wf()
        &&& unique_node_ids(self.nodes@)
        &&& layered_below(self.nodes@, self.max_z_index as int)
        &&& self.max_z_index >= 0
        &&& distinct_ids(self.selected_nodes@)
        &&& distinct_ids(self.selected_edges@)
        &&& self.undo_stack@.len() + self.redo_stack@.len() <= MAX_HISTORY_SIZE
        &&& forall|k: int| 0 <= k < self.undo_stack@.len() ==> snapshot_ok(#[trigger] self.undo_stack@[k], self.max_z_index as int)
        &&& forall|k: int| 0 <= k < self.redo_stack@.len() ==> snapshot_ok(#[trigger] self.redo_stack@[k], self.max_z_index as int)
    }

    /// The fields that only history and clipboard operations touch are as before.
    pub open spec fn keeps_settings(&self, o: &FlowState) -> bool {
        &&& self.viewport == o.viewport
        &&& self.snap_grid == o.snap_grid
        &&& self.default_edge_options == o.default_edge_options
        &&& self.connection_valid == o.connection_valid
    }

    /// Only the node, edge and selection lists differ from `o`.
    pub open spec fn graph_change_only(&self, o: &FlowState) -> bool {
        &&& self.keeps_settings(o)
        &&& self.connection == o.connection
        &&& self.clipboard == o.clipboard
        &&& self.undo_stack == o.undo_stack
        &&& self.redo_stack == o.redo_stack
        &&& self.max_z_index == o.max_z_index
    }

    /// An empty diagram.
    pub fn new() -> (r: FlowState)
        ensures
            r.wf(),
            r.nodes@.len() == 0 && r.edges@.len() == 0,
            r.viewport == (Viewport { x: 0, y: 0, zoom: ZOOM_ONE }),
            r.selected_nodes@.len() == 0 && r.selected_edges@.len() == 0,
            r.connection.is_none(),
            r.snap_grid == (SnapGrid { enabled: false, size: 15 }),
            r.clipboard.nodes@.len() == 0 && r.clipboard.edges@.len() == 0,
            r.undo_stack@.len() == 0 && r.redo_stack@.len() == 0,
            r.max_z_index == 0,
            r.connection_valid,
    {
        FlowState::with_nodes_and_edges(Vec::new(), Vec::new())
    }
}


/// Largest layer among the nodes, and at least zero.
pub open spec fn max_layer(ns: Seq<Node>) -> int
    decreases ns.len(),
{
    if ns.len() == 0 {
        0
    } else {
        let m = max_layer(ns.drop_last());
        if ns.last().z_index > m { ns.last().z_index as int } else { m }
    }
}

proof fn lemma_max_layer_bounds(ns: Seq<Node>)
    ensures
        layered_below(ns, max_layer(ns)),
        max_layer(ns) >= 0,
        max_layer(ns) <= i64::MAX,
    decreases ns.len(),
{
    if ns.len() > 0 {
        lemma_max_layer_bounds(ns.drop_last());
        assert forall|j: int| 0 <= j < ns.len() implies ns[j].z_index <= max_layer(ns) by {
            if j < ns.len() - 1 {
                assert(ns.drop_last()[j] == ns[j]);
            }
        }
    }
}

impl FlowState {
    /// A diagram holding the given nodes and edges; node ids must be unique.
    pub fn with_nodes_and_edges(nodes: Vec<Node>, edges: Vec<Edge>) -> (r: FlowState)
        requires
            unique_node_ids(nodes@),
        ensures
            r.wf(),
            r.nodes == nodes && r.edges == edges,
            r.viewport == (Viewport { x: 0, y: 0, zoom: ZOOM_ONE }),
            r.selected_nodes@.len() == 0 && r.selected_edges@.len() == 0,
            r.connection.is_none(),
            r.snap_grid == (SnapGrid { enabled: false, size: 15 }),
            r.default_edge_options.edge_type == crate::types::EdgeType::Bezier,
            r.default_edge_options.stroke@ == "#b1b1b7"@,
            r.default_edge_options.stroke_width == 2,
            !r.default_edge_options.animated,
            r.clipboard.nodes@.len() == 0 && r.clipboard.edges@.len() == 0,
            r.undo_stack@.len() == 0 && r.redo_stack@.len() == 0,
            r.max_z_index == max_layer(nodes@),
            r.connection_valid,
    {
        let mut max_z: i64 = 0;
        let mut i: usize = 0;
        while i < nodes.len()
            invariant
                i <= nodes@.len(),
                max_z == max_layer(nodes@.take(i as int)),
            decreases nodes@.len() - i,
        {
            proof {
                let t = nodes@.take(i + 1);
                assert(t.drop_last() =~= nodes@.take(i as int));
            }
            if nodes[i].z_index > max_z {
                max_z = nodes[i].z_index;
            }
            i += 1;
        }
        proof {
            assert(nodes@.take(nodes@.len() as int) =~= nodes@);
            lemma_max_layer_bounds(nodes@);
        }
        FlowState {
            nodes,
            edges,
            viewport: Viewport::default(),
            selected_nodes: Vec::new(),
            selected_edges: Vec::new(),
            connection: None,
            snap_grid: SnapGrid::default(),
            default_edge_options: DefaultEdgeOptions::default(),
            clipboard: ClipboardData::default(),
            undo_stack: Vec::new(),
            redo_stack: Vec::new(),
            max_z_index: max_z,
            connection_valid: true,
        }
    }

    /// Index of the node `id`.
    pub(crate) fn node_index(&self, id: &String) -> (r: Option<usize>)
        ensures
            match r {
                Some(i) => first_node(self.nodes@, id@, i as int),
                None => forall|i: int| 0 <= i < self.nodes@.len() ==> self.nodes@[i].id@ != id@,
            },
    {
        let mut i: usize = 0;
        while i < self.nodes.len()
            invariant
                i <= self.nodes@.len(),
                forall|j: int| 0 <= j < i ==> self.nodes@[j].id@ != id@,
            decreases self.nodes@.len() - i,
        {
            if self.nodes[i].id == *id {
                return Some(i);
            }
            i += 1;
        }
        None
    }

    /// Index of the first edge `id`.
    pub(crate) fn edge_index(&self, id: &String) -> (r: Option<usize>)
        ensures
            match r {
                Some(i) => first_edge(self.edges@, id@, i as int),
                None => forall|i: int| 0 <= i < self.edges@.len() ==> self.edges@[i].id@ != id@,
            },
    {
        let mut i: usize = 0;
        while i < self.edges.len()
            invariant
                i <= self.edges@.len(),
                forall|j: int| 0 <= j < i ==> self.edges@[j].id@ != id@,
            decreases self.edges@.len() - i,
        {
            if self.edges[i].id == *id {
                return Some(i);
            }
            i += 1;
        }
        None
    }

    /// The node `id`; the first where ids repeat.
    pub fn get_node(&self, id: &str) -> (r: Option<&Node>)
        ensures
            r.is_none() <==> forall|i: int| 0 <= i < self.nodes@.len() ==> self.nodes@[i].id@ != id@,
            r.is_some() ==> exists|i: int| first_node(self.nodes@, id@, i) && *r.unwrap() == self.nodes@[i],
    {
        let key = id.to_owned();
        match self.node_index(&key) {
            Some(i) => Some(&self.nodes[i]),
            None => None,
        }
    }

    /// The first edge `id`.
    pub fn get_edge(&self, id: &str) -> (r: Option<&Edge>)
        ensures
            r.is_none() <==> forall|i: int| 0 <= i < self.edges@.len() ==> self.edges@[i].id@ != id@,
            r.is_some() ==> exists|i: int| first_edge(self.edges@, id@, i) && *r.unwrap() == self.edges@[i],
    {
        let key = id.to_owned();
        match self.edge_index(&key) {
            Some(i) => Some(&self.edges[i]),
            None => None,
        }
    }

    /// Layer a node added now receives.
    pub open spec fn layer_for(&self, node: Node) -> int {
        if node.z_index == 0 { self.max_z_index + 1 } else { node.z_index as int }
    }

    /// Running maximum after adding a node with layer `z`.
    pub open spec fn max_after(&self, z: i64) -> int {
        if z == 0 { self.max_z_index + 1 } else if z > self.max_z_index { z as int } else { self.max_z_index as int }
    }

    /// Appends a node. A node without a layer (zero) is put above all
    /// others; a given layer raises the running maximum to at least it.
    pub fn add_node(&mut self, node: Node)
        requires
            old(self).wf(),
            old(self).max_z_index < i64::MAX,
            forall|i: int| 0 <= i < old(self).nodes@.len() ==> old(self).nodes@[i].id@ != node.id@,
        ensures
            final(self).wf(),
            final(self).nodes@ == old(self).nodes@.push(Node { z_index: old(self).layer_for(node) as i64, ..node }),
            final(self).max_z_index == old(self).max_after(node.z_index),
            final(self).edges == old(self).edges,
            final(self).selected_nodes == old(self).selected_nodes,
            final(self).selected_edges == old(self).selected_edges,
            final(self).keeps_settings(old(self)),
            final(self).connection == old(self).connection,
            final(self).clipboard == old(self).clipboard,
            final(self).undo_stack == old(self).undo_stack,
            final(self).redo_stack == old(self).redo_stack,
    {
        let mut node = node;
        if node.z_index == 0 {
            self.max_z_index = self.max_z_index + 1;
            node.z_index = self.max_z_index;
        } else if node.z_index > self.max_z_index {
            self.max_z_index = node.z_index;
        }
        self.nodes.push(node);
        proof {
            assert forall|k: int| 0 <= k < self.undo_stack@.len() implies snapshot_ok(#[trigger] self.undo_stack@[k], self.max_z_index as int) by {
                assert(snapshot_ok(old(self).undo_stack@[k], old(self).max_z_index as int));
            }
            assert forall|k: int| 0 <= k < self.redo_stack@.len() implies snapshot_ok(#[trigger] self.redo_stack@[k], self.max_z_index as int) by {
                assert(snapshot_ok(old(self).redo_stack@[k], old(self).max_z_index as int));
            }
        }
    }
}


fn mask_nodes_with_id(nodes: &Vec<Node>, id: &String) -> (m: Vec<bool>)
    ensures
        m@.len() == nodes@.len(),
        forall|i: int| 0 <= i < nodes@.len() ==> m@[i] == (nodes@[i].id@ == id@),
{
    let mut m: Vec<bool> = Vec::new();
    let mut i: usize = 0;
    while i < nodes.len()
        invariant
            i <= nodes@.len(),
            m@.len() == i,
            forall|j: int| 0 <= j < i ==> m@[j] == (nodes@[j].id@ == id@),
        decreases nodes@.len() - i,
    {
        m.push(nodes[i].id == *id);
        i += 1;
    }
    m
}

fn mask_edges_touching(edges: &Vec<Edge>, id: &String) -> (m: Vec<bool>)
    ensures
        m@.len() == edges@.len(),
        forall|i: int| 0 <= i < edges@.len() ==> m@[i] == edges@[i].touches(id@),
{
    let mut m: Vec<bool> = Vec::new();
    let mut i: usize = 0;
    while i < edges.len()
        invariant
            i <= edges@.len(),
            m@.len() == i,
            forall|j: int| 0 <= j < i ==> m@[j] == edges@[j].touches(id@),
        decreases edges@.len() - i,
    {
        m.push(edges[i].source == *id || edges[i].target == *id);
        i += 1;
    }
    m
}

fn mask_edges_with_id(edges: &Vec<Edge>, id: &String) -> (m: Vec<bool>)
    ensures
        m@.len() == edges@.len(),
        forall|i: int| 0 <= i < edges@.len() ==> m@[i] == (edges@[i].id@ == id@),
{
    let mut m: Vec<bool> = Vec::new();
    let mut i: usize = 0;
    while i < edges.len()
        invariant
            i <= edges@.len(),
            m@.len() == i,
            forall|j: int| 0 <= j < i ==> m@[j] == (edges@[j].id@ == id@),
        decreases edges@.len() - i,
    {
        m.push(edges[i].id == *id);
        i += 1;
    }
    m
}

fn mask_strings_equal(v: &Vec<String>, id: &String) -> (m: Vec<bool>)
    ensures
        m@.len() == v@.len(),
        forall|i: int| 0 <= i < v@.len() ==> m@[i] == (v@[i]@ == id@),
{
    let mut m: Vec<bool> = Vec::new();
    let mut i: usize = 0;
    while i < v.len()
        invariant
            i <= v@.len(),
            m@.len() == i,
            forall|j: int| 0 <= j < i ==> m@[j] == (v@[j]@ == id@),
        decreases v@.len() - i,
    {
        m.push(v[i] == *id);
        i += 1;
    }
    m
}

/// `v` holds a string whose view is `id`.
pub(crate) fn contains_id(v: &Vec<String>, id: &String) -> (r: bool)
    ensures
        r == exists|i: int| 0 <= i < v@.len() && v@[i]@ == id@,
{
    let mut i: usize = 0;
    while i < v.len()
        invariant
            i <= v@.len(),
            forall|j: int| 0 <= j < i ==> v@[j]@ != id@,
        decreases v@.len() - i,
    {
        if v[i] == *id {
            return true;
        }
        i += 1;
    }
    false
}

/// What `undo` does: with history, the latest snapshot comes back with its
/// selection cleared and the state it replaces goes to the redo stack;
/// without, nothing changes.
pub open spec fn undone(a: FlowState, b: FlowState, r: bool) -> bool {
    if a.undo_stack@.len() == 0 {
        !r && b == a
    } else {
        &&& r
        &&& b.nodes@ == unselect_nodes(a.undo_stack@.last().nodes@)
        &&& b.edges@ == unselect_edges(a.undo_stack@.last().edges@)
        &&& b.undo_stack@ == a.undo_stack@.drop_last()
        &&& b.redo_stack@ == a.redo_stack@.push(FlowSnapshot { nodes: a.nodes, edges: a.edges })
        &&& b.selected_nodes@.len() == 0 && b.selected_edges@.len() == 0
        &&& b.keeps_settings(&a)
        &&& b.connection == a.connection && b.clipboard == a.clipboard
        &&& b.max_z_index == a.max_z_index
    }
}

/// What `redo` does: the mirror image of `undone`.
pub open spec fn redone(a: FlowState, b: FlowState, r: bool) -> bool {
    if a.redo_stack@.len() == 0 {
        !r && b == a
    } else {
        &&& r
        &&& b.nodes@ == unselect_nodes(a.redo_stack@.last().nodes@)
        &&& b.edges@ == unselect_edges(a.redo_stack@.last().edges@)
        &&& b.redo_stack@ == a.redo_stack@.drop_last()
        &&& b.undo_stack@ == a.undo_stack@.push(FlowSnapshot { nodes: a.nodes, edges: a.edges })
        &&& b.selected_nodes@.len() == 0 && b.selected_edges@.len() == 0
        &&& b.keeps_settings(&a)
        &&& b.connection == a.connection && b.clipboard == a.clipboard
        &&& b.max_z_index == a.max_z_index
    }
}

/// Undoing and then redoing brings back the nodes and edges as they were,
/// with selection cleared, and leaves the redo stack as it was.
pub proof fn lemma_undo_redo_inverse(s0: FlowState, s1: FlowState, s2: FlowState, r1: bool, r2: bool)
    requires
        s0.undo_stack@.len() > 0,
        undone(s0, s1, r1),
        redone(s1, s2, r2),
    ensures
        r1 && r2,
        s2.nodes@ == unselect_nodes(s0.nodes@),
        s2.edges@ == unselect_edges(s0.edges@),
        s2.redo_stack@ == s0.redo_stack@,
        s2.undo_stack@.len() == s0.undo_stack@.len(),
        s2.undo_stack@.drop_last() == s0.undo_stack@.drop_last(),
        (forall|i: int| 0 <= i < s0.nodes@.len() ==> !s0.nodes@[i].selected)
            && (forall|i: int| 0 <= i < s0.edges@.len() ==> !s0.edges@[i].selected)
            ==> s2.nodes@ == s0.nodes@ && s2.edges@ == s0.edges@,
{
    assert(s1.redo_stack@.last() == (FlowSnapshot { nodes: s0.nodes, edges: s0.edges }));
    assert(s2.redo_stack@ =~= s0.redo_stack@);
    if (forall|i: int| 0 <= i < s0.nodes@.len() ==> !s0.nodes@[i].selected)
        && (forall|i: int| 0 <= i < s0.edges@.len() ==> !s0.edges@[i].selected) {
        assert(s2.nodes@ =~= s0.nodes@);
        assert(s2.edges@ =~= s0.edges@);
    }
}

/// Redo with nothing to redo fails and changes nothing.
pub proof fn lemma_redo_empty(s0: FlowState, s1: FlowState, r: bool)
    requires
        s0.redo_stack@.len() == 0,
        redone(s0, s1, r),
    ensures
        !r,
        s1 == s0,
{
}

impl FlowState {
    /// Removes the node `id` with every edge that touches it, and drops it
    /// from the selection.
    pub fn remove_node(&mut self, id: &str)
        requires
            old(self).wf(),
        ensures
            final(self).wf(),
            final(self).nodes@ == old(self).nodes@.filter(|n: Node| n.id@ != id@),
            final(self).edges@ == old(self).edges@.filter(|e: Edge| !e.touches(id@)),
            forall|i: int| 0 <= i < final(self).edges@.len() ==> !(#[trigger] final(self).edges@[i]).touches(id@),
            forall|i: int| 0 <= i < final(self).nodes@.len() ==> (#[trigger] final(self).nodes@[i]).id@ != id@,
            final(self).selected_nodes@ == old(self).selected_nodes@.filter(|s: String| s@ != id@),
            final(self).selected_edges == old(self).selected_edges,
            final(self).graph_change_only(old(self)),
    {
        let key = id.to_owned();
        let node_mask = mask_nodes_with_id(&self.nodes, &key);
        let edge_mask = mask_edges_touching(&self.edges, &key);
        let sel_mask = mask_strings_equal(&self.selected_nodes, &key);
        proof {
            broadcast use vstd::seq_lib::group_filter_ensures;
            lemma_masked_filter(self.nodes@, node_mask@, |n: Node| n.id@ != id@);
            lemma_masked_filter(self.edges@, edge_mask@, |e: Edge| !e.touches(id@));
            lemma_masked_filter(self.selected_nodes@, sel_mask@, |s: String| s@ != id@);
            lemma_masked_distinct(self.nodes@, node_mask@, |n: Node| n.id@);
            lemma_masked_distinct(self.selected_nodes@, sel_mask@, |s: String| s@);
            lemma_masked_contains(self.nodes@, node_mask@);
        }
        retain_unmasked(&mut self.nodes, &node_mask);
        retain_unmasked(&mut self.edges, &edge_mask);
        retain_unmasked(&mut self.selected_nodes, &sel_mask);
        proof {
            assert forall|i: int| 0 <= i < self.nodes@.len() implies self.nodes@[i].z_index <= self.max_z_index by {
                assert(old(self).nodes@.contains(self.nodes@[i]));
            }
        }
    }

    /// Appends `edge` unless an edge with the same endpoints exists already,
    /// in which case nothing changes.
    pub fn add_edge(&mut self, edge: Edge)
        requires
            old(self).wf(),
        ensures
            final(self).wf(),
            (exists|i: int| 0 <= i < old(self).edges@.len() && old(self).edges@[i].links_like(&edge))
                ==> final(self).edges@ == old(self).edges@,
            (exists|i: int| 0 <= i < old(self).edges@.len() && old(self).edges@[i].links_like(&edge))
                ==> final(self).edges@.len() == old(self).edges@.len(),
            !(exists|i: int| 0 <= i < old(self).edges@.len() && old(self).edges@[i].links_like(&edge))
                ==> final(self).edges@ == old(self).edges@.push(edge),
            final(self).nodes == old(self).nodes,
            final(self).selected_nodes == old(self).selected_nodes,
            final(self).selected_edges == old(self).selected_edges,
            final(self).graph_change_only(old(self)),
    {
        if !self.has_link_like(&edge) {
            self.edges.push(edge);
        }
    }

    /// Whether an edge with the same endpoints as `edge` exists.
    pub(crate) fn has_link_like(&self, edge: &Edge) -> (r: bool)
        ensures
            r == exists|i: int| 0 <= i < self.edges@.len() && self.edges@[i].links_like(edge),
    {
        let mut i: usize = 0;
        while i < self.edges.len()
            invariant
                i <= self.edges@.len(),
                forall|j: int| 0 <= j < i ==> !self.edges@[j].links_like(edge),
            decreases self.edges@.len() - i,
        {
            if self.edges[i].links_like_exec(edge) {
                return true;
            }
            i += 1;
        }
        false
    }

    /// Removes every edge `id` and drops it from the selection.
    pub fn remove_edge(&mut self, id: &str)
        requires
            old(self).wf(),
        ensures
            final(self).wf(),
            final(self).edges@ == old(self).edges@.filter(|e: Edge| e.id@ != id@),
            final(self).selected_edges@ == old(self).selected_edges@.filter(|s: String| s@ != id@),
            final(self).nodes == old(self).nodes,
            final(self).selected_nodes == old(self).selected_nodes,
            final(self).graph_change_only(old(self)),
    {
        let key = id.to_owned();
        let edge_mask = mask_edges_with_id(&self.edges, &key);
        let sel_mask = mask_strings_equal(&self.selected_edges, &key);
        proof {
            lemma_masked_filter(self.edges@, edge_mask@, |e: Edge| e.id@ != id@);
            lemma_masked_filter(self.selected_edges@, sel_mask@, |s: String| s@ != id@);
            lemma_masked_distinct(self.selected_edges@, sel_mask@, |s: String| s@);
        }
        retain_unmasked(&mut self.edges, &edge_mask);
        retain_unmasked(&mut self.selected_edges, &sel_mask);
    }

    /// Clears every selection mark, selectable or not, and both selection lists.
    pub fn clear_selection(&mut self)
        requires
            old(self).wf(),
        ensures
            final(self).wf(),
            final(self).nodes@ == unselect_nodes(old(self).nodes@),
            final(self).edges@ == unselect_edges(old(self).edges@),
            final(self).selected_nodes@.len() == 0,
            final(self).selected_edges@.len() == 0,
            final(self).graph_change_only(old(self)),
    {
        let n = self.nodes.len();
        let mut i: usize = 0;
        while i < n
            invariant
                i <= n == self.nodes@.len() == old(self).nodes@.len(),
                forall|j: int| 0 <= j < i ==> self.nodes@[j] == unselected_node(old(self).nodes@[j]),
                forall|j: int| i <= j < n ==> self.nodes@[j] == old(self).nodes@[j],
                self.edges == old(self).edges,
                self.selected_nodes == old(self).selected_nodes,
                self.selected_edges == old(self).selected_edges,
                self.graph_change_only(old(self)),
            decreases n - i,
        {
            self.nodes[i].selected = false;
            i += 1;
        }
        let m = self.edges.len();
        let mut k: usize = 0;
        while k < m
            invariant
                k <= m == self.edges@.len() == old(self).edges@.len(),
                self.nodes@ =~= unselect_nodes(old(self).nodes@),
                forall|j: int| 0 <= j < k ==> self.edges@[j] == unselected_edge(old(self).edges@[j]),
                forall|j: int| k <= j < m ==> self.edges@[j] == old(self).edges@[j],
                self.selected_nodes == old(self).selected_nodes,
                self.selected_edges == old(self).selected_edges,
                self.graph_change_only(old(self)),
            decreases m - k,
        {
            self.edges[k].selected = false;
            k += 1;
        }
        self.selected_nodes.clear();
        self.selected_edges.clear();
        assert(self.edges@ =~= unselect_edges(old(self).edges@));
    }

    /// Pushes a copy of the nodes and edges onto the undo stack, dropping the
    /// oldest snapshot beyond `MAX_HISTORY_SIZE`, and empties the redo stack.
    pub fn save_to_history(&mut self)
        requires
            old(self).wf(),
        ensures
            final(self).wf(),
            final(self).undo_stack@.len() == (if old(self).undo_stack@.len() + 1 > MAX_HISTORY_SIZE {
                MAX_HISTORY_SIZE as int
            } else {
                old(self).undo_stack@.len() + 1 as int
            }),
            final(self).undo_stack@.last().holds(old(self).nodes@, old(self).edges@),
            final(self).undo_stack@.drop_last() == (if old(self).undo_stack@.len() + 1 > MAX_HISTORY_SIZE {
                old(self).undo_stack@.drop_first()
            } else {
                old(self).undo_stack@
            }),
            final(self).redo_stack@.len() == 0,
            final(self).nodes == old(self).nodes,
            final(self).edges == old(self).edges,
            final(self).selected_nodes == old(self).selected_nodes,
            final(self).selected_edges == old(self).selected_edges,
            final(self).keeps_settings(old(self)),
            final(self).connection == old(self).connection,
            final(self).clipboard == old(self).clipboard,
            final(self).max_z_index == old(self).max_z_index,
    {
        let snapshot = FlowSnapshot { nodes: self.nodes.clone(), edges: self.edges.clone() };
        proof {
            assert(snapshot.edges@ =~= self.edges@);
            assert forall|i: int| 0 <= i < snapshot.nodes@.len() implies #[trigger] snapshot.nodes@[i].same(&self.nodes@[i]) by {
                assert(cloned::<Node>(self.nodes@[i], snapshot.nodes@[i]));
            }
        }
        self.undo_stack.push(snapshot);
        if self.undo_stack.len() > MAX_HISTORY_SIZE {
            self.undo_stack.remove(0);
        }
        self.redo_stack.clear();
        proof {
            assert(self.undo_stack@.drop_last() =~= (if old(self).undo_stack@.len() + 1 > MAX_HISTORY_SIZE {
                old(self).undo_stack@.drop_first()
            } else {
                old(self).undo_stack@
            }));
            let last = self.undo_stack@.last();
            assert forall|i: int, j: int| 0 <= i < last.nodes@.len() && 0 <= j < last.nodes@.len() && i != j
                implies last.nodes@[i].id@ != last.nodes@[j].id@ by {
                assert(last.nodes@[i].same(&self.nodes@[i]));
                assert(last.nodes@[j].same(&self.nodes@[j]));
            }
            assert forall|i: int| 0 <= i < last.nodes@.len() implies last.nodes@[i].z_index <= self.max_z_index by {
                assert(last.nodes@[i].same(&self.nodes@[i]));
            }
            assert forall|k: int| 0 <= k < self.undo_stack@.len() implies snapshot_ok(#[trigger] self.undo_stack@[k], self.max_z_index as int) by {
                if k < self.undo_stack@.len() - 1 {
                    if old(self).undo_stack@.len() + 1 > MAX_HISTORY_SIZE {
                        assert(self.undo_stack@[k] == old(self).undo_stack@[k + 1]);
                    } else {
                        assert(self.undo_stack@[k] == old(self).undo_stack@[k]);
                    }
                }
            }
        }
    }

    /// Steps back to the latest snapshot; false, changing nothing, when there
    /// is none.
    pub fn undo(&mut self) -> (r: bool)
        requires
            old(self).wf(),
        ensures
            final(self).wf(),
            undone(*old(self), *final(self), r),
    {
        if self.undo_stack.len() == 0 {
            return false;
        }
        match self.undo_stack.pop() {
            Some(snap) => {
                proof {
                    assert(snapshot_ok(old(self).undo_stack@[old(self).undo_stack@.len() - 1], self.max_z_index as int));
                }
                let FlowSnapshot { nodes: mut nodes, edges: mut edges } = snap;
                std::mem::swap(&mut self.nodes, &mut nodes);
                std::mem::swap(&mut self.edges, &mut edges);
                self.redo_stack.push(FlowSnapshot { nodes, edges });
                self.selected_nodes.clear();
                self.selected_edges.clear();
                proof {
                    assert forall|k: int| 0 <= k < self.undo_stack@.len() implies snapshot_ok(#[trigger] self.undo_stack@[k], self.max_z_index as int) by {
                        assert(self.undo_stack@[k] == old(self).undo_stack@[k]);
                    }
                    assert forall|k: int| 0 <= k < self.redo_stack@.len() implies snapshot_ok(#[trigger] self.redo_stack@[k], self.max_z_index as int) by {
                        if k < self.redo_stack@.len() - 1 {
                            assert(self.redo_stack@[k] == old(self).redo_stack@[k]);
                        }
                    }
                }
                self.clear_selection();
                true
            },
            None => false,
        }
    }

    /// Steps forward to the latest undone state; false, changing nothing,
    /// when there is none.
    pub fn redo(&mut self) -> (r: bool)
        requires
            old(self).wf(),
        ensures
            final(self).wf(),
            redone(*old(self), *final(self), r),
    {
        if self.redo_stack.len() == 0 {
            return false;
        }
        match self.redo_stack.pop() {
            Some(snap) => {
                proof {
                    assert(snapshot_ok(old(self).redo_stack@[old(self).redo_stack@.len() - 1], self.max_z_index as int));
                }
                let FlowSnapshot { nodes: mut nodes, edges: mut edges } = snap;
                std::mem::swap(&mut self.nodes, &mut nodes);
                std::mem::swap(&mut self.edges, &mut edges);
                self.undo_stack.push(FlowSnapshot { nodes, edges });
                self.selected_nodes.clear();
                self.selected_edges.clear();
                proof {
                    assert forall|k: int| 0 <= k < self.redo_stack@.len() implies snapshot_ok(#[trigger] self.redo_stack@[k], self.max_z_index as int) by {
                        assert(self.redo_stack@[k] == old(self).redo_stack@[k]);
                    }
                    assert forall|k: int| 0 <= k < self.undo_stack@.len() implies snapshot_ok(#[trigger] self.undo_stack@[k], self.max_z_index as int) by {
                        if k < self.undo_stack@.len() - 1 {
                            assert(self.undo_stack@[k] == old(self).undo_stack@[k]);
                        }
                    }
                }
                self.clear_selection();
                true
            },
            None => false,
        }
    }

    pub fn can_undo(&self) -> (r: bool)
        ensures
            r == (self.undo_stack@.len() > 0),
    {
        !self.undo_stack.is_empty()
    }

    pub fn can_redo(&self) -> (r: bool)
        ensures
            r == (self.redo_stack@.len() > 0),
    {
        !self.redo_stack.is_empty()
    }
}


/// The node may be selected and its box overlaps `rect`.
pub open spec fn box_hit(rect: SelectionRect, n: Node) -> bool {
    n.selectable && rect.meets(n.position.x as int, n.position.y as int, n.spec_width(), n.spec_height())
}

/// `v` holds a string whose view is `id`.
pub open spec fn has_id(v: Seq<String>, id: Seq<char>) -> bool {
    exists|i: int| 0 <= i < v.len() && v[i]@ == id
}

pub open spec fn selected_node(n: Node) -> Node {
    Node { selected: true, ..n }
}

pub open spec fn selected_edge(e: Edge) -> Edge {
    Edge { selected: true, ..e }
}

/// `after` is `before` with `id` appended unless it was there.
pub open spec fn added_id(before: Seq<String>, after: Seq<String>, id: Seq<char>) -> bool {
    if has_id(before, id) {
        after == before
    } else {
        after.len() == before.len() + 1 && after.drop_last() == before && after.last()@ == id
    }
}

/// Appends `id` unless the list holds it already.
fn add_id(list: &mut Vec<String>, id: &String)
    requires
        distinct_ids(old(list)@),
    ensures
        distinct_ids(final(list)@),
        added_id(old(list)@, final(list)@, id@),
{
    if !contains_id(list, id) {
        list.push(id.clone());
        proof {
            assert(final(list)@.drop_last() =~= old(list)@);
        }
    }
}

/// `acc` followed by each id of `cand`, in order, that it does not hold yet.
pub open spec fn with_ids(acc: Seq<Seq<char>>, cand: Seq<Seq<char>>) -> Seq<Seq<char>>
    decreases cand.len(),
{
    if cand.len() == 0 {
        acc
    } else {
        let prev = with_ids(acc, cand.drop_last());
        if prev.contains(cand.last()) { prev } else { prev.push(cand.last()) }
    }
}

/// Ids, in list order, of the nodes that satisfy `pred`.
pub open spec fn node_ids_where(ns: Seq<Node>, pred: spec_fn(Node) -> bool) -> Seq<Seq<char>> {
    ns.filter(pred).map_values(|n: Node| n.id@)
}

/// Ids, in list order, of the edges that satisfy `pred`.
pub open spec fn edge_ids_where(es: Seq<Edge>, pred: spec_fn(Edge) -> bool) -> Seq<Seq<char>> {
    es.filter(pred).map_values(|e: Edge| e.id@)
}

proof fn lemma_with_ids_push(acc: Seq<Seq<char>>, cand: Seq<Seq<char>>, x: Seq<char>)
    ensures
        with_ids(acc, cand.push(x)) == (if with_ids(acc, cand).contains(x) {
            with_ids(acc, cand)
        } else {
            with_ids(acc, cand).push(x)
        }),
{
    assert(cand.push(x).drop_last() =~= cand);
}

proof fn lemma_node_ids_where_step(ns: Seq<Node>, pred: spec_fn(Node) -> bool, k: int)
    requires
        0 <= k < ns.len(),
    ensures
        node_ids_where(ns.take(k + 1), pred) == (if pred(ns[k]) {
            node_ids_where(ns.take(k), pred).push(ns[k].id@)
        } else {
            node_ids_where(ns.take(k), pred)
        }),
{
    let t = ns.take(k + 1);
    assert(t.drop_last() =~= ns.take(k));
    assert(t.last() == ns[k]);
    reveal(Seq::filter);
    if pred(ns[k]) {
        assert(node_ids_where(t, pred) =~= node_ids_where(ns.take(k), pred).push(ns[k].id@));
    }
}

proof fn lemma_edge_ids_where_step(es: Seq<Edge>, pred: spec_fn(Edge) -> bool, k: int)
    requires
        0 <= k < es.len(),
    ensures
        edge_ids_where(es.take(k + 1), pred) == (if pred(es[k]) {
            edge_ids_where(es.take(k), pred).push(es[k].id@)
        } else {
            edge_ids_where(es.take(k), pred)
        }),
{
    let t = es.take(k + 1);
    assert(t.drop_last() =~= es.take(k));
    assert(t.last() == es[k]);
    reveal(Seq::filter);
    if pred(es[k]) {
        assert(edge_ids_where(t, pred) =~= edge_ids_where(es.take(k), pred).push(es[k].id@));
    }
}

/// What `added_id` says, over the views of the ids.
proof fn lemma_added_ids(before: Seq<String>, after: Seq<String>, id: Seq<char>)
    requires
        added_id(before, after, id),
    ensures
        ids_of(after) == (if ids_of(before).contains(id) { ids_of(before) } else { ids_of(before).push(id) }),
{
    if has_id(before, id) {
        let i = choose|i: int| 0 <= i < before.len() && before[i]@ == id;
        assert(ids_of(before)[i] == id);
    } else {
        assert forall|i: int| 0 <= i < ids_of(before).len() implies ids_of(before)[i] != id by {
            assert(before[i]@ == ids_of(before)[i]);
        }
        assert(ids_of(after) =~= ids_of(before).push(id)) by {
            assert forall|i: int| 0 <= i < before.len() implies after[i] == before[i] by {
                assert(after.drop_last()[i] == after[i]);
            }
        }
    }
}

impl FlowState {
    /// The nodes a selection starts from: as they are when adding to the
    /// selection, else with every mark cleared.
    pub open spec fn base_nodes(&self, multi: bool) -> Seq<Node> {
        if multi { self.nodes@ } else { unselect_nodes(self.nodes@) }
    }

    pub open spec fn base_edges(&self, multi: bool) -> Seq<Edge> {
        if multi { self.edges@ } else { unselect_edges(self.edges@) }
    }

    pub open spec fn base_selected_nodes(&self, multi: bool) -> Seq<String> {
        if multi { self.selected_nodes@ } else { Seq::empty() }
    }

    pub open spec fn base_selected_edges(&self, multi: bool) -> Seq<String> {
        if multi { self.selected_edges@ } else { Seq::empty() }
    }

    /// The state a selection starts from.
    pub open spec fn selection_base(&self, o: &FlowState, multi: bool) -> bool {
        &&& self.nodes@ == o.base_nodes(multi)
        &&& self.edges@ == o.base_edges(multi)
        &&& self.selected_nodes@ == o.base_selected_nodes(multi)
        &&& self.selected_edges@ == o.base_selected_edges(multi)
        &&& self.graph_change_only(o)
    }

    fn start_selection(&mut self, multi: bool)
        requires
            old(self).wf(),
        ensures
            final(self).wf(),
            final(self).selection_base(old(self), multi),
    {
        if !multi {
            self.clear_selection();
        }
        proof {
            if multi {
                assert(self.selected_nodes@ == old(self).base_selected_nodes(multi));
            } else {
                assert(self.selected_nodes@ =~= old(self).base_selected_nodes(multi));
                assert(self.selected_edges@ =~= old(self).base_selected_edges(multi));
            }
        }
    }

    /// Marks node `i` selected and lists its id.
    fn mark_node(&mut self, i: usize)
        requires
            old(self).wf(),
            i < old(self).nodes@.len(),
        ensures
            final(self).wf(),
            final(self).nodes@ == old(self).nodes@.update(i as int, selected_node(old(self).nodes@[i as int])),
            added_id(old(self).selected_nodes@, final(self).selected_nodes@, old(self).nodes@[i as int].id@),
            final(self).edges == old(self).edges,
            final(self).selected_edges == old(self).selected_edges,
            final(self).graph_change_only(old(self)),
    {
        let id = self.nodes[i].id.clone();
        add_id(&mut self.selected_nodes, &id);
        self.nodes[i].selected = true;
        proof {
            assert forall|a: int, b: int| 0 <= a < self.nodes@.len() && 0 <= b < self.nodes@.len() && a != b
                implies self.nodes@[a].id@ != self.nodes@[b].id@ by {
                assert(old(self).nodes@[a].id@ != old(self).nodes@[b].id@);
            }
            assert forall|a: int| 0 <= a < self.nodes@.len() implies self.nodes@[a].z_index <= self.max_z_index by {
                assert(old(self).nodes@[a].z_index <= self.max_z_index);
            }
        }
    }

    /// Marks edge `i` selected and lists its id.
    fn mark_edge(&mut self, i: usize)
        requires
            old(self).wf(),
            i < old(self).edges@.len(),
        ensures
            final(self).wf(),
            final(self).edges@ == old(self).edges@.update(i as int, selected_edge(old(self).edges@[i as int])),
            added_id(old(self).selected_edges@, final(self).selected_edges@, old(self).edges@[i as int].id@),
            final(self).nodes == old(self).nodes,
            final(self).selected_nodes == old(self).selected_nodes,
            final(self).graph_change_only(old(self)),
    {
        let id = self.edges[i].id.clone();
        add_id(&mut self.selected_edges, &id);
        self.edges[i].selected = true;
    }

    /// Node `id` exists and may not be selected.
    pub open spec fn node_unselectable(&self, id: Seq<char>) -> bool {
        exists|i: int| node_at(self.nodes@, id, i) && !self.nodes@[i].selectable
    }

    /// Selects node `id`, first clearing the selection unless `multi`; does
    /// nothing to a node that may not be selected. An id no node has is
    /// still listed.
    pub fn select_node(&mut self, id: &str, multi: bool)
        requires
            old(self).wf(),
        ensures
            final(self).wf(),
            old(self).node_unselectable(id@) ==> *final(self) == *old(self),
            !old(self).node_unselectable(id@) ==> {
                &&& forall|i: int| node_at(old(self).nodes@, id@, i)
                    ==> final(self).nodes@ == old(self).base_nodes(multi).update(i, selected_node(old(self).base_nodes(multi)[i]))
                &&& (forall|i: int| 0 <= i < old(self).nodes@.len() ==> old(self).nodes@[i].id@ != id@)
                    ==> final(self).nodes@ == old(self).base_nodes(multi)
                &&& added_id(old(self).base_selected_nodes(multi), final(self).selected_nodes@, id@)
                &&& final(self).edges@ == old(self).base_edges(multi)
                &&& final(self).selected_edges@ == old(self).base_selected_edges(multi)
                &&& final(self).graph_change_only(old(self))
            },
    {
        let key = id.to_owned();
        let idx = self.node_index(&key);
        if let Some(i) = idx {
            if !self.nodes[i].selectable {
                return;
            }
        }
        self.start_selection(multi);
        match idx {
            Some(i) => {
                proof {
                    assert(self.nodes@.len() == old(self).nodes@.len());
                }
                self.mark_node(i);
            },
            None => {
                add_id(&mut self.selected_nodes, &key);
            },
        }
    }

    /// Edge `id` exists and its first occurrence may not be selected.
    pub open spec fn edge_unselectable(&self, id: Seq<char>) -> bool {
        exists|i: int| first_edge(self.edges@, id, i) && !self.edges@[i].selectable
    }

    /// Selects edge `id` (its first occurrence), first clearing the
    /// selection unless `multi`; does nothing to an edge that may not be
    /// selected. An id no edge has is still listed.
    pub fn select_edge(&mut self, id: &str, multi: bool)
        requires
            old(self).wf(),
        ensures
            final(self).wf(),
            old(self).edge_unselectable(id@) ==> *final(self) == *old(self),
            !old(self).edge_unselectable(id@) ==> {
                &&& forall|i: int| first_edge(old(self).edges@, id@, i)
                    ==> final(self).edges@ == old(self).base_edges(multi).update(i, selected_edge(old(self).base_edges(multi)[i]))
                &&& (forall|i: int| 0 <= i < old(self).edges@.len() ==> old(self).edges@[i].id@ != id@)
                    ==> final(self).edges@ == old(self).base_edges(multi)
                &&& added_id(old(self).base_selected_edges(multi), final(self).selected_edges@, id@)
                &&& final(self).nodes@ == old(self).base_nodes(multi)
                &&& final(self).selected_nodes@ == old(self).base_selected_nodes(multi)
                &&& final(self).graph_change_only(old(self))
            },
    {
        let key = id.to_owned();
        let idx = self.edge_index(&key);
        if let Some(i) = idx {
            if !self.edges[i].selectable {
                return;
            }
        }
        self.start_selection(multi);
        match idx {
            Some(i) => {
                proof {
                    assert(self.edges@.len() == old(self).edges@.len());
                }
                self.mark_edge(i);
            },
            None => {
                add_id(&mut self.selected_edges, &key);
            },
        }
    }

    /// Node `i` of the selection base is hit by box-select over `rect`.
    pub open spec fn boxed(&self, rect: SelectionRect, multi: bool, i: int) -> bool {
        box_hit(rect, self.nodes@[i])
    }

    /// Selects every selectable node whose box overlaps `rect`, first
    /// clearing the selection unless `multi`; their ids follow the kept
    /// selection in node order. Edges are left alone.
    pub fn select_in_rect(&mut self, rect: SelectionRect, multi: bool)
        requires
            old(self).wf(),
        ensures
            final(self).wf(),
            final(self).nodes@.len() == old(self).nodes@.len(),
            forall|i: int| 0 <= i < old(self).nodes@.len() ==> final(self).nodes@[i] == if old(self).boxed(rect, multi, i) {
                selected_node(old(self).base_nodes(multi)[i])
            } else {
                old(self).base_nodes(multi)[i]
            },
            final(self).selected_nodes@.take(old(self).base_selected_nodes(multi).len() as int) == old(self).base_selected_nodes(multi),
            forall|s: Seq<char>| #![trigger has_id(final(self).selected_nodes@, s)] has_id(final(self).selected_nodes@, s) <==> has_id(old(self).base_selected_nodes(multi), s)
                || exists|i: int| 0 <= i < old(self).nodes@.len() && old(self).boxed(rect, multi, i) && old(self).nodes@[i].id@ == s,
            ids_of(final(self).selected_nodes@) == with_ids(
                ids_of(old(self).base_selected_nodes(multi)),
                node_ids_where(old(self).nodes@, |n: Node| box_hit(rect, n)),
            ),
            final(self).edges@ == old(self).base_edges(multi),
            final(self).selected_edges@ == old(self).base_selected_edges(multi),
            final(self).graph_change_only(old(self)),
    {
        self.start_selection(multi);
        let ghost base = *self;
        let n = self.nodes.len();
        let mut k: usize = 0;
        while k < n
            invariant
                self.wf(),
                k <= n == self.nodes@.len() == base.nodes@.len() == old(self).nodes@.len(),
                base.selection_base(old(self), multi),
                ids_of(self.selected_nodes@) == with_ids(
                    ids_of(base.selected_nodes@),
                    node_ids_where(old(self).nodes@.take(k as int), |n: Node| box_hit(rect, n)),
                ),
                forall|i: int| 0 <= i < k ==> self.nodes@[i] == if old(self).boxed(rect, multi, i) {
                    selected_node(base.nodes@[i])
                } else {
                    base.nodes@[i]
                },
                forall|i: int| k <= i < n ==> self.nodes@[i] == base.nodes@[i],
                self.selected_nodes@.take(base.selected_nodes@.len() as int) == base.selected_nodes@,
                self.selected_nodes@.len() >= base.selected_nodes@.len(),
                forall|s: Seq<char>| #![trigger has_id(self.selected_nodes@, s)] has_id(self.selected_nodes@, s) <==> has_id(base.selected_nodes@, s)
                    || exists|i: int| 0 <= i < k && old(self).boxed(rect, multi, i) && old(self).nodes@[i].id@ == s,
                self.edges == base.edges,
                self.selected_edges == base.selected_edges,
                self.graph_change_only(old(self)),
            decreases n - k,
        {
            proof {
                assert(base.nodes@[k as int].id@ == old(self).nodes@[k as int].id@);
            }
            let hit = self.nodes[k].selectable && rect.intersects_node(&self.nodes[k]);
            proof {
                if !multi {
                    assert(base.nodes@[k as int] == unselected_node(old(self).nodes@[k as int]));
                }
                assert(hit == old(self).boxed(rect, multi, k as int));
            }
            if !hit {
                assert forall|s: Seq<char>| #![trigger has_id(self.selected_nodes@, s)] has_id(self.selected_nodes@, s) <==> has_id(base.selected_nodes@, s)
                    || exists|i: int| 0 <= i < k + 1 && old(self).boxed(rect, multi, i) && old(self).nodes@[i].id@ == s by {
                    if has_id(self.selected_nodes@, s) && !has_id(base.selected_nodes@, s) {
                        let i = choose|i: int| 0 <= i < k && old(self).boxed(rect, multi, i) && old(self).nodes@[i].id@ == s;
                        assert(0 <= i < k + 1 && old(self).boxed(rect, multi, i) && old(self).nodes@[i].id@ == s);
                    }
                    if exists|i: int| 0 <= i < k + 1 && old(self).boxed(rect, multi, i) && old(self).nodes@[i].id@ == s {
                        let i = choose|i: int| 0 <= i < k + 1 && old(self).boxed(rect, multi, i) && old(self).nodes@[i].id@ == s;
                        assert(i < k);
                    }
                }
            }
            proof {
                lemma_node_ids_where_step(old(self).nodes@, |n: Node| box_hit(rect, n), k as int);
            }
            if hit {
                let ghost before = self.selected_nodes@;
                self.mark_node(k);
                proof {
                    lemma_added_ids(before, self.selected_nodes@, old(self).nodes@[k as int].id@);
                    lemma_with_ids_push(ids_of(base.selected_nodes@),
                        node_ids_where(old(self).nodes@.take(k as int), |n: Node| box_hit(rect, n)), old(self).nodes@[k as int].id@);
                    assert(self.selected_nodes@.take(base.selected_nodes@.len() as int) =~= base.selected_nodes@) by {
                        if !has_id(before, base.nodes@[k as int].id@) {
                            assert(self.selected_nodes@.take(base.selected_nodes@.len() as int) =~= before.take(base.selected_nodes@.len() as int));
                        }
                    }
                    assert forall|s: Seq<char>| #![trigger has_id(self.selected_nodes@, s)] has_id(self.selected_nodes@, s) <==> has_id(base.selected_nodes@, s)
                        || exists|i: int| 0 <= i < k + 1 && old(self).boxed(rect, multi, i) && old(self).nodes@[i].id@ == s by {
                        if has_id(before, s) && !has_id(base.selected_nodes@, s) {
                            let i = choose|i: int| 0 <= i < k && old(self).boxed(rect, multi, i) && old(self).nodes@[i].id@ == s;
                            assert(0 <= i < k + 1 && old(self).boxed(rect, multi, i) && old(self).nodes@[i].id@ == s);
                        }
                        if exists|i: int| 0 <= i < k + 1 && old(self).boxed(rect, multi, i) && old(self).nodes@[i].id@ == s {
                            let i = choose|i: int| 0 <= i < k + 1 && old(self).boxed(rect, multi, i) && old(self).nodes@[i].id@ == s;
                            if i == k {
                                if has_id(before, s) {
                                    let j = choose|j: int| 0 <= j < before.len() && before[j]@ == s;
                                    assert(self.selected_nodes@[j]@ == s);
                                } else {
                                    assert(self.selected_nodes@[self.selected_nodes@.len() - 1]@ == s);
                                }
                            }
                        }
                        if has_id(before, base.nodes@[k as int].id@) {
                        } else {
                            if has_id(self.selected_nodes@, s) {
                                let j = choose|j: int| 0 <= j < self.selected_nodes@.len() && self.selected_nodes@[j]@ == s;
                                if j < before.len() {
                                    assert(before[j]@ == s);
                                }
                            }
                            if has_id(before, s) {
                                let j = choose|j: int| 0 <= j < before.len() && before[j]@ == s;
                                assert(self.selected_nodes@[j]@ == s);
                            }
                            if s == old(self).nodes@[k as int].id@ {
                                assert(self.selected_nodes@[self.selected_nodes@.len() - 1]@ == s);
                            }
                        }
                    }
                }
            }
            k += 1;
        }
        proof {
            assert(old(self).nodes@.take(n as int) =~= old(self).nodes@);
        }
    }

    /// Selects every selectable node and edge, keeping what was selected;
    /// new ids follow in list order.
    pub fn select_all(&mut self)
        requires
            old(self).wf(),
        ensures
            final(self).wf(),
            final(self).nodes@.len() == old(self).nodes@.len(),
            forall|i: int| 0 <= i < old(self).nodes@.len() ==> final(self).nodes@[i] == if old(self).nodes@[i].selectable {
                selected_node(old(self).nodes@[i])
            } else {
                old(self).nodes@[i]
            },
            final(self).edges@.len() == old(self).edges@.len(),
            forall|i: int| 0 <= i < old(self).edges@.len() ==> final(self).edges@[i] == if old(self).edges@[i].selectable {
                selected_edge(old(self).edges@[i])
            } else {
                old(self).edges@[i]
            },
            forall|s: Seq<char>| has_id(final(self).selected_nodes@, s) <==> has_id(old(self).selected_nodes@, s)
                || exists|i: int| 0 <= i < old(self).nodes@.len() && old(self).nodes@[i].selectable && old(self).nodes@[i].id@ == s,
            forall|s: Seq<char>| has_id(final(self).selected_edges@, s) <==> has_id(old(self).selected_edges@, s)
                || exists|i: int| 0 <= i < old(self).edges@.len() && old(self).edges@[i].selectable && old(self).edges@[i].id@ == s,
            ids_of(final(self).selected_nodes@) == with_ids(ids_of(old(self).selected_nodes@), node_ids_where(old(self).nodes@, |n: Node| n.selectable)),
            ids_of(final(self).selected_edges@) == with_ids(ids_of(old(self).selected_edges@), edge_ids_where(old(self).edges@, |e: Edge| e.selectable)),
            final(self).graph_change_only(old(self)),
    {
        let n = self.nodes.len();
        let mut k: usize = 0;
        while k < n
            invariant
                self.wf(),
                k <= n == self.nodes@.len() == old(self).nodes@.len(),
                forall|i: int| 0 <= i < k ==> self.nodes@[i] == if old(self).nodes@[i].selectable {
                    selected_node(old(self).nodes@[i])
                } else {
                    old(self).nodes@[i]
                },
                forall|i: int| k <= i < n ==> self.nodes@[i] == old(self).nodes@[i],
                ids_of(self.selected_nodes@) == with_ids(ids_of(old(self).selected_nodes@), node_ids_where(old(self).nodes@.take(k as int), |n: Node| n.selectable)),
                forall|s: Seq<char>| has_id(self.selected_nodes@, s) <==> has_id(old(self).selected_nodes@, s)
                    || exists|i: int| 0 <= i < k && old(self).nodes@[i].selectable && old(self).nodes@[i].id@ == s,
                self.edges == old(self).edges,
                self.selected_edges == old(self).selected_edges,
                self.graph_change_only(old(self)),
            decreases n - k,
        {
            proof {
                lemma_node_ids_where_step(old(self).nodes@, |n: Node| n.selectable, k as int);
            }
            if self.nodes[k].selectable {
                let ghost before = self.selected_nodes@;
                self.mark_node(k);
                proof {
                    lemma_added_ids(before, self.selected_nodes@, old(self).nodes@[k as int].id@);
                    lemma_with_ids_push(ids_of(old(self).selected_nodes@),
                        node_ids_where(old(self).nodes@.take(k as int), |n: Node| n.selectable), old(self).nodes@[k as int].id@);
                    assert forall|s: Seq<char>| has_id(self.selected_nodes@, s) <==> has_id(old(self).selected_nodes@, s)
                        || exists|i: int| 0 <= i < k + 1 && old(self).nodes@[i].selectable && old(self).nodes@[i].id@ == s by {
                        if !has_id(before, old(self).nodes@[k as int].id@) {
                            if has_id(self.selected_nodes@, s) {
                                let j = choose|j: int| 0 <= j < self.selected_nodes@.len() && self.selected_nodes@[j]@ == s;
                                if j < before.len() {
                                    assert(before[j]@ == s);
                                }
                            }
                            if has_id(before, s) {
                                let j = choose|j: int| 0 <= j < before.len() && before[j]@ == s;
                                assert(self.selected_nodes@[j]@ == s);
                            }
                            if s == old(self).nodes@[k as int].id@ {
                                assert(self.selected_nodes@[self.selected_nodes@.len() - 1]@ == s);
                            }
                        }
                    }
                }
            }
            k += 1;
        }
        proof {
            assert(old(self).nodes@.take(n as int) =~= old(self).nodes@);
        }
        let ghost mid = *self;
        let m = self.edges.len();
        let mut k: usize = 0;
        while k < m
            invariant
                self.wf(),
                k <= m == self.edges@.len() == old(self).edges@.len(),
                forall|i: int| 0 <= i < k ==> self.edges@[i] == if old(self).edges@[i].selectable {
                    selected_edge(old(self).edges@[i])
                } else {
                    old(self).edges@[i]
                },
                forall|i: int| k <= i < m ==> self.edges@[i] == old(self).edges@[i],
                ids_of(self.selected_nodes@) == with_ids(ids_of(old(self).selected_nodes@), node_ids_where(old(self).nodes@, |n: Node| n.selectable)),
                ids_of(self.selected_edges@) == with_ids(ids_of(old(self).selected_edges@), edge_ids_where(old(self).edges@.take(k as int), |e: Edge| e.selectable)),
                forall|s: Seq<char>| has_id(self.selected_edges@, s) <==> has_id(old(self).selected_edges@, s)
                    || exists|i: int| 0 <= i < k && old(self).edges@[i].selectable && old(self).edges@[i].id@ == s,
                self.nodes == mid.nodes,
                self.selected_nodes == mid.selected_nodes,
                self.graph_change_only(old(self)),
            decreases m - k,
        {
            proof {
                lemma_edge_ids_where_step(old(self).edges@, |e: Edge| e.selectable, k as int);
            }
            if self.edges[k].selectable {
                let ghost before = self.selected_edges@;
                self.mark_edge(k);
                proof {
                    lemma_added_ids(before, self.selected_edges@, old(self).edges@[k as int].id@);
                    lemma_with_ids_push(ids_of(old(self).selected_edges@),
                        edge_ids_where(old(self).edges@.take(k as int), |e: Edge| e.selectable), old(self).edges@[k as int].id@);
                    assert forall|s: Seq<char>| has_id(self.selected_edges@, s) <==> has_id(old(self).selected_edges@, s)
                        || exists|i: int| 0 <= i < k + 1 && old(self).edges@[i].selectable && old(self).edges@[i].id@ == s by {
                        if !has_id(before, old(self).edges@[k as int].id@) {
                            if has_id(self.selected_edges@, s) {
                                let j = choose|j: int| 0 <= j < self.selected_edges@.len() && self.selected_edges@[j]@ == s;
                                if j < before.len() {
                                    assert(before[j]@ == s);
                                }
                            }
                            if has_id(before, s) {
                                let j = choose|j: int| 0 <= j < before.len() && before[j]@ == s;
                                assert(self.selected_edges@[j]@ == s);
                            }
                            if s == old(self).edges@[k as int].id@ {
                                assert(self.selected_edges@[self.selected_edges@.len() - 1]@ == s);
                            }
                        }
                    }
                }
            }
            k += 1;
        }
        proof {
            assert(old(self).edges@.take(m as int) =~= old(self).edges@);
        }
    }
}


/// Where a node asked to go to `p` lands: snapped to the grid, then kept
/// within its bounds.
pub open spec fn placed(n: Node, p: Position, grid: SnapGrid) -> Position {
    match n.extent {
        Some(ext) => ext.spec_clamp(grid.spec_snap(p), n.spec_width(), n.spec_height()),
        None => grid.spec_snap(p),
    }
}

/// `p` moved by `(dx, dy)`.
pub open spec fn shifted(p: Position, dx: i64, dy: i64) -> Position {
    Position { x: (p.x + dx) as i64, y: (p.y + dy) as i64 }
}

/// The node can be moved by `(dx, dy)` without leaving the `i64` range.
pub open spec fn shift_fits(n: Node, dx: i64, dy: i64, grid: SnapGrid) -> bool {
    &&& fits_i64(n.position.x + dx)
    &&& fits_i64(n.position.y + dy)
    &&& grid.snap_fits(shifted(n.position, dx, dy))
}

/// The node will move when selected nodes are dragged.
pub open spec fn drags(n: Node, selected: Seq<String>) -> bool {
    n.draggable && has_id(selected, n.id@)
}

pub open spec fn with_position(n: Node, p: Position) -> Node {
    Node { position: p, ..n }
}

pub open spec fn with_layer(n: Node, z: int) -> Node {
    Node { z_index: z as i64, ..n }
}

/// Edge `e` joins the same endpoints as the pending connection.
pub open spec fn matches_pending(e: Edge, p: PendingConnection) -> bool {
    same_link(
        e.source@, e.target@, e.source_handle, e.source_handle_id, e.target_handle, e.target_handle_id,
        p.source@, p.target@, p.source_handle, p.source_handle_id, p.target_handle, p.target_handle_id,
    )
}

/// Stem of the id given to an edge made by completing a connection. Two
/// handle pairs between the same nodes share it, so the edge's id is the
/// stem followed by as many `~` as it takes to differ from every edge id.
pub open spec fn connection_edge_id(source: Seq<char>, target: Seq<char>) -> Seq<char> {
    seq!['e'] + source + seq!['-'] + target
}

/// The edge completing the connection `c` at `target`, among the edges
/// `es`, carries these values.
pub open spec fn completes(e: Edge, es: Seq<Edge>, c: Connection, target: Seq<char>, target_handle: HandlePosition, target_handle_id: Option<String>, opts: DefaultEdgeOptions) -> bool {
    &&& e.id@.len() >= connection_edge_id(c.source@, target).len()
    &&& e.id@.take(connection_edge_id(c.source@, target).len() as int) == connection_edge_id(c.source@, target)
    &&& forall|i: int| 0 <= i < es.len() ==> es[i].id@ != e.id@
    &&& e.source@ == c.source@
    &&& e.target@ == target
    &&& e.source_handle == c.source_handle
    &&& e.target_handle == target_handle
    &&& e.source_handle_id == c.source_handle_id
    &&& e.target_handle_id == target_handle_id
    &&& e.edge_type == opts.edge_type
    &&& e.stroke@ == opts.stroke@
    &&& e.stroke_width == opts.stroke_width
    &&& e.animated == opts.animated
    &&& !e.selected && e.selectable && e.deletable
    &&& e.label.is_none()
    &&& e.class@ == Seq::<char>::empty()
}

impl FlowState {
    fn place_exec(&self, i: usize, p: Position) -> (r: Position)
        requires
            i < self.nodes@.len(),
            self.snap_grid.snap_fits(p),
        ensures
            r == placed(self.nodes@[i as int], p, self.snap_grid),
    {
        let snapped = self.snap_grid.snap(p);
        match self.nodes[i].extent {
            Some(ext) => ext.clamp(snapped, self.nodes[i].width_or_default(), self.nodes[i].height_or_default()),
            None => snapped,
        }
    }

    fn set_position(&mut self, i: usize, p: Position)
        requires
            old(self).wf(),
            i < old(self).nodes@.len(),
        ensures
            final(self).wf(),
            final(self).nodes@ == old(self).nodes@.update(i as int, with_position(old(self).nodes@[i as int], p)),
            final(self).edges == old(self).edges,
            final(self).selected_nodes == old(self).selected_nodes,
            final(self).selected_edges == old(self).selected_edges,
            final(self).graph_change_only(old(self)),
    {
        self.nodes[i].position = p;
        proof {
            assert forall|a: int, b: int| 0 <= a < self.nodes@.len() && 0 <= b < self.nodes@.len() && a != b
                implies self.nodes@[a].id@ != self.nodes@[b].id@ by {
                assert(old(self).nodes@[a].id@ != old(self).nodes@[b].id@);
            }
            assert forall|a: int| 0 <= a < self.nodes@.len() implies self.nodes@[a].z_index <= self.max_z_index by {
                assert(old(self).nodes@[a].z_index <= self.max_z_index);
            }
        }
    }

    /// Moves node `id` to `position`, snapped to the grid when snapping is
    /// on and then kept within the node's bounds; nothing happens to an
    /// unknown id.
    pub fn update_node_position(&mut self, id: &str, position: Position)
        requires
            old(self).wf(),
            old(self).snap_grid.snap_fits(position),
        ensures
            final(self).wf(),
            forall|i: int| node_at(old(self).nodes@, id@, i) ==> final(self).nodes@
                == old(self).nodes@.update(i, with_position(old(self).nodes@[i], placed(old(self).nodes@[i], position, old(self).snap_grid))),
            (forall|i: int| 0 <= i < old(self).nodes@.len() ==> old(self).nodes@[i].id@ != id@) ==> final(self).nodes == old(self).nodes,
            final(self).edges == old(self).edges,
            final(self).selected_nodes == old(self).selected_nodes,
            final(self).selected_edges == old(self).selected_edges,
            final(self).graph_change_only(old(self)),
    {
        let key = id.to_owned();
        if let Some(i) = self.node_index(&key) {
            let p = self.place_exec(i, position);
            self.set_position(i, p);
        }
    }

    /// Moves every selected, draggable node by `(dx, dy)`, each snapped and
    /// kept within its bounds as `update_node_position` does.
    pub fn move_selected_nodes(&mut self, dx: i64, dy: i64)
        requires
            old(self).wf(),
            forall|i: int| 0 <= i < old(self).nodes@.len() && drags(old(self).nodes@[i], old(self).selected_nodes@)
                ==> shift_fits(old(self).nodes@[i], dx, dy, old(self).snap_grid),
        ensures
            final(self).wf(),
            final(self).nodes@.len() == old(self).nodes@.len(),
            forall|i: int| 0 <= i < old(self).nodes@.len() ==> #[trigger] final(self).nodes@[i] == if drags(old(self).nodes@[i], old(self).selected_nodes@) {
                with_position(old(self).nodes@[i], placed(old(self).nodes@[i], shifted(old(self).nodes@[i].position, dx, dy), old(self).snap_grid))
            } else {
                old(self).nodes@[i]
            },
            final(self).edges == old(self).edges,
            final(self).selected_nodes == old(self).selected_nodes,
            final(self).selected_edges == old(self).selected_edges,
            final(self).graph_change_only(old(self)),
    {
        let n = self.nodes.len();
        let mut i: usize = 0;
        while i < n
            invariant
                self.wf(),
                i <= n == self.nodes@.len() == old(self).nodes@.len(),
                forall|j: int| 0 <= j < old(self).nodes@.len() && drags(old(self).nodes@[j], old(self).selected_nodes@)
                    ==> shift_fits(old(self).nodes@[j], dx, dy, old(self).snap_grid),
                forall|j: int| 0 <= j < i ==> #[trigger] self.nodes@[j] == if drags(old(self).nodes@[j], old(self).selected_nodes@) {
                    with_position(old(self).nodes@[j], placed(old(self).nodes@[j], shifted(old(self).nodes@[j].position, dx, dy), old(self).snap_grid))
                } else {
                    old(self).nodes@[j]
                },
                forall|j: int| i <= j < n ==> self.nodes@[j] == old(self).nodes@[j],
                self.edges == old(self).edges,
                self.selected_nodes == old(self).selected_nodes,
                self.selected_edges == old(self).selected_edges,
                self.graph_change_only(old(self)),
            decreases n - i,
        {
            if self.nodes[i].draggable && contains_id(&self.selected_nodes, &self.nodes[i].id) {
                proof {
                    assert(drags(old(self).nodes@[i as int], old(self).selected_nodes@));
                    assert(shift_fits(old(self).nodes@[i as int], dx, dy, old(self).snap_grid));
                }
                let target = Position::new(self.nodes[i].position.x + dx, self.nodes[i].position.y + dy);
                let p = self.place_exec(i, target);
                self.set_position(i, p);
            }
            i += 1;
        }
    }

    /// Puts node `id` above every other: the running maximum goes up by one
    /// (also for an unknown id) and the node takes it.
    pub fn bring_to_front(&mut self, id: &str)
        requires
            old(self).wf(),
            old(self).max_z_index < i64::MAX,
        ensures
            final(self).wf(),
            final(self).max_z_index == old(self).max_z_index + 1,
            forall|i: int| node_at(old(self).nodes@, id@, i)
                ==> final(self).nodes@ == old(self).nodes@.update(i, with_layer(old(self).nodes@[i], old(self).max_z_index + 1)),
            (forall|i: int| 0 <= i < old(self).nodes@.len() ==> old(self).nodes@[i].id@ != id@) ==> final(self).nodes == old(self).nodes,
            final(self).edges == old(self).edges,
            final(self).selected_nodes == old(self).selected_nodes,
            final(self).selected_edges == old(self).selected_edges,
            final(self).keeps_settings(old(self)),
            final(self).connection == old(self).connection,
            final(self).clipboard == old(self).clipboard,
            final(self).undo_stack == old(self).undo_stack,
            final(self).redo_stack == old(self).redo_stack,
    {
        self.max_z_index = self.max_z_index + 1;
        let key = id.to_owned();
        if let Some(i) = self.node_index(&key) {
            self.nodes[i].z_index = self.max_z_index;
            proof {
                assert forall|a: int, b: int| 0 <= a < self.nodes@.len() && 0 <= b < self.nodes@.len() && a != b
                    implies self.nodes@[a].id@ != self.nodes@[b].id@ by {
                    assert(old(self).nodes@[a].id@ != old(self).nodes@[b].id@);
                }
                assert forall|a: int| 0 <= a < self.nodes@.len() implies self.nodes@[a].z_index <= self.max_z_index by {
                    assert(old(self).nodes@[a].z_index <= old(self).max_z_index);
                }
            }
        }
        proof {
            assert forall|k: int| 0 <= k < self.undo_stack@.len() implies snapshot_ok(#[trigger] self.undo_stack@[k], self.max_z_index as int) by {
                assert(snapshot_ok(old(self).undo_stack@[k], old(self).max_z_index as int));
            }
            assert forall|k: int| 0 <= k < self.redo_stack@.len() implies snapshot_ok(#[trigger] self.redo_stack@[k], self.max_z_index as int) by {
                assert(snapshot_ok(old(self).redo_stack@[k], old(self).max_z_index as int));
            }
        }
    }

    /// Puts node `id` below every other: each other node goes up one layer,
    /// the node takes layer zero, and the running maximum goes up by one.
    pub fn send_to_back(&mut self, id: &str)
        requires
            old(self).wf(),
            old(self).max_z_index < i64::MAX,
        ensures
            final(self).wf(),
            final(self).max_z_index == old(self).max_z_index + 1,
            final(self).nodes@.len() == old(self).nodes@.len(),
            forall|i: int| 0 <= i < old(self).nodes@.len() ==> #[trigger] final(self).nodes@[i] == if old(self).nodes@[i].id@ == id@ {
                with_layer(old(self).nodes@[i], 0)
            } else {
                with_layer(old(self).nodes@[i], old(self).nodes@[i].z_index + 1)
            },
            final(self).edges == old(self).edges,
            final(self).selected_nodes == old(self).selected_nodes,
            final(self).selected_edges == old(self).selected_edges,
            final(self).keeps_settings(old(self)),
            final(self).connection == old(self).connection,
            final(self).clipboard == old(self).clipboard,
            final(self).undo_stack == old(self).undo_stack,
            final(self).redo_stack == old(self).redo_stack,
    {
        let key = id.to_owned();
        self.max_z_index = self.max_z_index + 1;
        let n = self.nodes.len();
        let mut i: usize = 0;
        while i < n
            invariant
                i <= n == self.nodes@.len() == old(self).nodes@.len(),
                self.max_z_index == old(self).max_z_index + 1,
                key@ == id@,
                layered_below(old(self).nodes@, old(self).max_z_index as int),
                old(self).max_z_index < i64::MAX,
                old(self).max_z_index >= 0,
                forall|j: int| 0 <= j < i ==> #[trigger] self.nodes@[j] == if old(self).nodes@[j].id@ == id@ {
                    with_layer(old(self).nodes@[j], 0)
                } else {
                    with_layer(old(self).nodes@[j], old(self).nodes@[j].z_index + 1)
                },
                forall|j: int| i <= j < n ==> self.nodes@[j] == old(self).nodes@[j],
                self.edges == old(self).edges,
                self.selected_nodes == old(self).selected_nodes,
                self.selected_edges == old(self).selected_edges,
                self.keeps_settings(old(self)),
                self.connection == old(self).connection,
                self.clipboard == old(self).clipboard,
                self.undo_stack == old(self).undo_stack,
                self.redo_stack == old(self).redo_stack,
            decreases n - i,
        {
            if self.nodes[i].id == key {
                self.nodes[i].z_index = 0;
            } else {
                assert(old(self).nodes@[i as int].z_index <= old(self).max_z_index);
                self.nodes[i].z_index = self.nodes[i].z_index + 1;
            }
            i += 1;
        }
        proof {
            assert forall|a: int, b: int| 0 <= a < self.nodes@.len() && 0 <= b < self.nodes@.len() && a != b
                implies self.nodes@[a].id@ != self.nodes@[b].id@ by {
                assert(old(self).nodes@[a].id@ != old(self).nodes@[b].id@);
                assert(self.nodes@[a].id == old(self).nodes@[a].id);
                assert(self.nodes@[b].id == old(self).nodes@[b].id);
            }
            assert forall|a: int| 0 <= a < self.nodes@.len() implies self.nodes@[a].z_index <= self.max_z_index by {
                assert(old(self).nodes@[a].z_index <= old(self).max_z_index);
            }
            assert forall|k: int| 0 <= k < self.undo_stack@.len() implies snapshot_ok(#[trigger] self.undo_stack@[k], self.max_z_index as int) by {
                assert(snapshot_ok(old(self).undo_stack@[k], old(self).max_z_index as int));
            }
            assert forall|k: int| 0 <= k < self.redo_stack@.len() implies snapshot_ok(#[trigger] self.redo_stack@[k], self.max_z_index as int) by {
                assert(snapshot_ok(old(self).redo_stack@[k], old(self).max_z_index as int));
            }
        }
    }
}


impl FlowState {
    /// Node `id` exists and is connectable.
    pub open spec fn can_connect_from(&self, id: Seq<char>) -> bool {
        exists|i: int| node_at(self.nodes@, id, i) && self.nodes@[i].connectable
    }

    /// Node `id` exists, is connectable, and has a connectable handle `handle_id`.
    pub open spec fn can_connect_from_handle(&self, id: Seq<char>, handle_id: Seq<char>) -> bool {
        exists|i: int, h: int| node_at(self.nodes@, id, i) && self.nodes@[i].connectable
            && crate::types::first_handle(self.nodes@[i].handles@, handle_id, h)
            && self.nodes@[i].handles@[h].connectable
    }

    /// Only the connection being drawn differs from `o`.
    pub open spec fn connection_change_only(&self, o: &FlowState) -> bool {
        &&& self.nodes == o.nodes && self.edges == o.edges
        &&& self.selected_nodes == o.selected_nodes && self.selected_edges == o.selected_edges
        &&& self.keeps_settings(o)
        &&& self.clipboard == o.clipboard
        &&& self.undo_stack == o.undo_stack && self.redo_stack == o.redo_stack
        &&& self.max_z_index == o.max_z_index
    }

    /// Starts drawing a connection from side `handle_position` of node
    /// `node_id`, with the pointer at `position`. Nothing happens while a
    /// connection is being drawn, or when the node is unknown or not
    /// connectable.
    pub fn start_connection(&mut self, node_id: &str, handle_position: HandlePosition, position: Position)
        requires
            old(self).wf(),
        ensures
            final(self).wf(),
            final(self).connection_change_only(old(self)),
            old(self).connection.is_none() && old(self).can_connect_from(node_id@) ==> {
                &&& final(self).connection.is_some()
                &&& final(self).connection.unwrap().source@ == node_id@
                &&& final(self).connection.unwrap().source_handle == handle_position
                &&& final(self).connection.unwrap().source_handle_id.is_none()
                &&& final(self).connection.unwrap().target_position == position
            },
            !(old(self).connection.is_none() && old(self).can_connect_from(node_id@)) ==> final(self).connection == old(self).connection,
    {
        if self.connection.is_some() {
            return;
        }
        let key = node_id.to_owned();
        match self.node_index(&key) {
            Some(i) => {
                if !self.nodes[i].connectable {
                    return;
                }
                self.connection = Some(Connection {
                    source: key,
                    source_handle: handle_position,
                    source_handle_id: None,
                    target_position: position,
                });
            },
            None => {},
        }
    }

    /// Starts drawing a connection from handle `handle_id` of node
    /// `node_id`. Nothing happens while a connection is being drawn, or when
    /// the node or the handle is unknown or not connectable.
    pub fn start_connection_from_handle(&mut self, node_id: &str, handle_id: &str, handle_position: HandlePosition, position: Position)
        requires
            old(self).wf(),
        ensures
            final(self).wf(),
            final(self).connection_change_only(old(self)),
            old(self).connection.is_none() && old(self).can_connect_from_handle(node_id@, handle_id@) ==> {
                &&& final(self).connection.is_some()
                &&& final(self).connection.unwrap().source@ == node_id@
                &&& final(self).connection.unwrap().source_handle == handle_position
                &&& final(self).connection.unwrap().source_handle_id.is_some()
                &&& final(self).connection.unwrap().source_handle_id.unwrap()@ == handle_id@
                &&& final(self).connection.unwrap().target_position == position
            },
            !(old(self).connection.is_none() && old(self).can_connect_from_handle(node_id@, handle_id@))
                ==> final(self).connection == old(self).connection,
    {
        if self.connection.is_some() {
            return;
        }
        let key = node_id.to_owned();
        match self.node_index(&key) {
            Some(i) => {
                if !self.nodes[i].connectable {
                    proof {
                        assert forall|a: int, h: int| !(node_at(self.nodes@, node_id@, a) && self.nodes@[a].connectable
                            && crate::types::first_handle(self.nodes@[a].handles@, handle_id@, h)
                            && self.nodes@[a].handles@[h].connectable) by {
                            if node_at(self.nodes@, node_id@, a) {
                                assert(a == i);
                            }
                        }
                    }
                    return;
                }
                match self.nodes[i].get_handle(handle_id) {
                    Some(h) => {
                        if !h.connectable {
                            proof {
                                assert forall|a: int, b: int| !(node_at(self.nodes@, node_id@, a) && self.nodes@[a].connectable
                                    && crate::types::first_handle(self.nodes@[a].handles@, handle_id@, b)
                                    && self.nodes@[a].handles@[b].connectable) by {
                                    if node_at(self.nodes@, node_id@, a) && crate::types::first_handle(self.nodes@[a].handles@, handle_id@, b) {
                                        assert(a == i);
                                        let c = choose|c: int| crate::types::first_handle(self.nodes@[i as int].handles@, handle_id@, c) && *h == self.nodes@[i as int].handles@[c];
                                        assert(b == c);
                                    }
                                }
                            }
                            return;
                        }
                        self.connection = Some(Connection {
                            source: key,
                            source_handle: handle_position,
                            source_handle_id: Some(handle_id.to_owned()),
                            target_position: position,
                        });
                    },
                    None => {
                        proof {
                            assert forall|a: int, b: int| !(node_at(self.nodes@, node_id@, a) && self.nodes@[a].connectable
                                && crate::types::first_handle(self.nodes@[a].handles@, handle_id@, b)
                                && self.nodes@[a].handles@[b].connectable) by {
                                if node_at(self.nodes@, node_id@, a) {
                                    assert(a == i);
                                }
                            }
                        }
                    },
                }
            },
            None => {},
        }
    }

    /// Moves the loose end of the connection being drawn; nothing else.
    pub fn update_connection(&mut self, position: Position)
        requires
            old(self).wf(),
        ensures
            final(self).wf(),
            final(self).connection_change_only(old(self)),
            old(self).connection.is_none() ==> final(self).connection.is_none(),
            old(self).connection.is_some() ==> final(self).connection == Some(Connection { target_position: position, ..old(self).connection.unwrap() }),
    {
        if let Some(conn) = &mut self.connection {
            conn.target_position = position;
        }
    }

    /// Abandons the connection being drawn.
    pub fn cancel_connection(&mut self)
        requires
            old(self).wf(),
        ensures
            final(self).wf(),
            final(self).connection_change_only(old(self)),
            final(self).connection.is_none(),
    {
        self.connection = None;
    }

    /// Refuses a connection from a node to itself, or one whose endpoints
    /// an edge joins already.
    pub fn validate_connection(&self, pending: &PendingConnection) -> (r: ConnectionValidation)
        ensures
            r.is_valid == (pending.source@ != pending.target@
                && !exists|i: int| 0 <= i < self.edges@.len() && matches_pending(self.edges@[i], *pending)),
            pending.source@ == pending.target@ ==> r.message.is_some() && r.message.unwrap()@ == "Cannot connect a node to itself"@,
            pending.source@ != pending.target@ && !r.is_valid ==> r.message.is_some() && r.message.unwrap()@ == "Connection already exists"@,
            r.is_valid ==> r.message.is_none(),
    {
        if pending.source == pending.target {
            return ConnectionValidation::invalid("Cannot connect a node to itself");
        }
        let mut i: usize = 0;
        while i < self.edges.len()
            invariant
                i <= self.edges@.len(),
                pending.source@ != pending.target@,
                forall|j: int| 0 <= j < i ==> !matches_pending(self.edges@[j], *pending),
            decreases self.edges@.len() - i,
        {
            let e = &self.edges[i];
            if e.source == pending.source && e.target == pending.target
                && same_end_exec(e.source_handle, &e.source_handle_id, pending.source_handle, &pending.source_handle_id)
                && same_end_exec(e.target_handle, &e.target_handle_id, pending.target_handle, &pending.target_handle_id) {
                return ConnectionValidation::invalid("Connection already exists");
            }
            i += 1;
        }
        ConnectionValidation::valid()
    }

    /// Completes the connection at side `target_handle` of node `target`;
    /// see `complete_connection_to_handle`.
    pub fn complete_connection(&mut self, target: &str, target_handle: HandlePosition) -> (r: Option<Edge>)
        requires
            old(self).wf(),
        ensures
            final(self).wf(),
            completed(*old(self), *final(self), target@, target_handle, None, r),
    {
        self.complete_connection_to_handle(target, target_handle, None)
    }

    /// Completes the connection being drawn at node `target`. A connection
    /// to its own source node, or one whose endpoints an edge joins already,
    /// is dropped; otherwise the new edge, with the default edge look, is
    /// added and returned. Either way no connection is drawn afterwards.
    pub fn complete_connection_to_handle(&mut self, target: &str, target_handle: HandlePosition, target_handle_id: Option<String>) -> (r: Option<Edge>)
        requires
            old(self).wf(),
        ensures
            final(self).wf(),
            completed(*old(self), *final(self), target@, target_handle, target_handle_id, r),
    {
        if self.connection.is_none() {
            return None;
        }
        let conn = self.connection.take().unwrap();
        let key = target.to_owned();
        let pending = PendingConnection {
            source: conn.source.clone(),
            source_handle: conn.source_handle,
            source_handle_id: crate::types::clone_opt_string(&conn.source_handle_id),
            target: key.clone(),
            target_handle,
            target_handle_id: crate::types::clone_opt_string(&target_handle_id),
        };
        if !self.validate_connection(&pending).is_valid {
            return None;
        }
        let mut id = String::from_str("e");
        id.append(conn.source.as_str());
        id.append("-");
        id.append(key.as_str());
        proof {
            reveal_strlit("e");
            reveal_strlit("-");
            assert(id@ =~= connection_edge_id(conn.source@, target@));
        }
        let id = self.fresh_edge_id(id);
        let edge = Edge {
            id,
            source: conn.source,
            target: key,
            source_handle: conn.source_handle,
            target_handle,
            source_handle_id: conn.source_handle_id,
            target_handle_id,
            edge_type: self.default_edge_options.edge_type,
            animated: self.default_edge_options.animated,
            selected: false,
            selectable: true,
            deletable: true,
            label: None,
            stroke: self.default_edge_options.stroke.clone(),
            stroke_width: self.default_edge_options.stroke_width,
            class: String::new(),
        };
        let made = edge.clone();
        proof {
            assert(!exists|i: int| 0 <= i < self.edges@.len() && self.edges@[i].links_like(&edge)) by {
                assert forall|i: int| 0 <= i < self.edges@.len() implies !self.edges@[i].links_like(&edge) by {
                    assert(!matches_pending(self.edges@[i], pending));
                }
            }
        }
        self.add_edge(edge);
        Some(made)
    }
}

/// What completing a connection does: the draft is gone afterwards, and an
/// edge is added and returned exactly when a draft existed, its source is
/// not `target`, and no edge joins the same endpoints.
pub open spec fn completed(a: FlowState, b: FlowState, target: Seq<char>, target_handle: HandlePosition, target_handle_id: Option<String>, r: Option<Edge>) -> bool {
    &&& b.connection.is_none()
    &&& b.nodes == a.nodes
    &&& b.selected_nodes == a.selected_nodes && b.selected_edges == a.selected_edges
    &&& b.keeps_settings(&a)
    &&& b.clipboard == a.clipboard
    &&& b.undo_stack == a.undo_stack && b.redo_stack == a.redo_stack
    &&& b.max_z_index == a.max_z_index
    &&& match a.connection {
        None => r.is_none() && b.edges == a.edges,
        Some(c) => {
            let ok = c.source@ != target && !exists|i: int| 0 <= i < a.edges@.len()
                && same_link(a.edges@[i].source@, a.edges@[i].target@, a.edges@[i].source_handle, a.edges@[i].source_handle_id,
                    a.edges@[i].target_handle, a.edges@[i].target_handle_id,
                    c.source@, target, c.source_handle, c.source_handle_id, target_handle, target_handle_id);
            if ok {
                r.is_some() && completes(r.unwrap(), a.edges@, c, target, target_handle, target_handle_id, a.default_edge_options)
                    && b.edges@ == a.edges@.push(r.unwrap())
            } else {
                r.is_none() && b.edges@ == a.edges@
            }
        },
    }
}


/// Relies on `uuid::Uuid::new_v4` for a random UUID and on the crate's
/// `Display` for `Uuid`, which writes its hyphenated lower-case form of 36
/// characters.
#[verifier::external_body]
fn random_uuid() -> (r: String)
    ensures
        r@.len() == 36,
{
    uuid::Uuid::new_v4().to_string()
}

/// Node `id` exists and may be deleted.
pub open spec fn deletes_node(nodes: Seq<Node>, id: Seq<char>) -> bool {
    exists|i: int| node_at(nodes, id, i) && nodes[i].deletable
}

/// The first edge `id` exists and may be deleted.
pub open spec fn deletes_edge(edges: Seq<Edge>, id: Seq<char>) -> bool {
    exists|i: int| first_edge(edges, id, i) && edges[i].deletable
}

/// The selected nodes that `delete_selected` removes, in selection order.
pub open spec fn doomed_nodes(nodes: Seq<Node>, selected: Seq<String>) -> Seq<String> {
    selected.filter(|x: String| deletes_node(nodes, x@))
}

/// The selected edges that `delete_selected` removes by id, in selection order.
pub open spec fn doomed_edges(edges: Seq<Edge>, selected: Seq<String>) -> Seq<String> {
    selected.filter(|x: String| deletes_edge(edges, x@))
}

/// Edge `e` goes when the selection is deleted: it is a deleted edge or
/// touches a deleted node.
pub open spec fn edge_goes(nodes: Seq<Node>, edges: Seq<Edge>, sel_nodes: Seq<String>, sel_edges: Seq<String>, e: Edge) -> bool {
    let dn = doomed_nodes(nodes, sel_nodes);
    has_id(doomed_edges(edges, sel_edges), e.id@) || has_id(dn, e.source@) || has_id(dn, e.target@)
}

/// What deleting the selection does to the graph and the selection, and
/// what it reports.
pub open spec fn deleted(a: FlowState, b: FlowState, nodes_out: Seq<String>, edges_out: Seq<String>) -> bool {
    &&& nodes_out == doomed_nodes(a.nodes@, a.selected_nodes@)
    &&& b.nodes@ == unselect_nodes(a.nodes@.filter(|n: Node| !has_id(doomed_nodes(a.nodes@, a.selected_nodes@), n.id@)))
    &&& b.edges@ == unselect_edges(a.edges@.filter(|e: Edge| !edge_goes(a.nodes@, a.edges@, a.selected_nodes@, a.selected_edges@, e)))
    &&& distinct_ids(edges_out)
    &&& forall|x: Seq<char>| #![trigger has_id(edges_out, x)] has_id(edges_out, x)
        <==> exists|i: int| 0 <= i < a.edges@.len() && edge_goes(a.nodes@, a.edges@, a.selected_nodes@, a.selected_edges@, a.edges@[i]) && a.edges@[i].id@ == x
    &&& b.selected_nodes@.len() == 0 && b.selected_edges@.len() == 0
    &&& b.keeps_settings(&a)
    &&& b.connection == a.connection
    &&& b.undo_stack == a.undo_stack && b.redo_stack == a.redo_stack
    &&& b.max_z_index == a.max_z_index
}

/// The clipboard holds copies of the selected nodes and of the edges both
/// of whose ends are selected.
pub open spec fn copied_into(a: FlowState, clip: ClipboardData) -> bool {
    &&& same_nodes(clip.nodes@, a.nodes@.filter(|n: Node| has_id(a.selected_nodes@, n.id@)))
    &&& clip.edges@ == a.edges@.filter(|e: Edge| has_id(a.selected_nodes@, e.source@) && has_id(a.selected_nodes@, e.target@))
}

impl FlowState {
    /// Removes the selected nodes and edges that may be deleted, and every
    /// edge touching a removed node whatever its own flag; clears the
    /// selection. Returns the ids of the removed nodes and, once each, of the
    /// removed edges.
    pub fn delete_selected(&mut self) -> (r: (Vec<String>, Vec<String>))
        requires
            old(self).wf(),
        ensures
            final(self).wf(),
            deleted(*old(self), *final(self), r.0@, r.1@),
            final(self).clipboard == old(self).clipboard,
    {
        let ghost s0 = *self;
        let ghost pn = |x: String| deletes_node(s0.nodes@, x@);
        let ghost pe = |x: String| deletes_edge(s0.edges@, x@);
        let mut dn: Vec<String> = Vec::new();
        let mut k: usize = 0;
        while k < self.selected_nodes.len()
            invariant
                *self == s0,
                s0.wf(),
                k <= s0.selected_nodes@.len(),
                pn == (|x: String| deletes_node(s0.nodes@, x@)),
                dn@ == s0.selected_nodes@.take(k as int).filter(pn),
            decreases s0.selected_nodes@.len() - k,
        {
            let id = &self.selected_nodes[k];
            let keep = match self.node_index(id) {
                Some(i) => self.nodes[i].deletable,
                None => false,
            };
            proof {
                if keep != pn(s0.selected_nodes@[k as int]) {
                    if keep {
                    } else {
                        let j = choose|j: int| node_at(s0.nodes@, s0.selected_nodes@[k as int]@, j) && s0.nodes@[j].deletable;
                        assert(s0.nodes@[j].id@ == s0.selected_nodes@[k as int]@);
                    }
                }
            }
            if keep {
                dn.push(self.selected_nodes[k].clone());
            }
            proof {
                let t = s0.selected_nodes@.take(k + 1);
                assert(t.drop_last() =~= s0.selected_nodes@.take(k as int));
                assert(t.last() == s0.selected_nodes@[k as int]);
                reveal(Seq::filter);
            }
            k += 1;
        }
        proof {
            assert(s0.selected_nodes@.take(s0.selected_nodes@.len() as int) =~= s0.selected_nodes@);
        }
        let mut de: Vec<String> = Vec::new();
        let mut k: usize = 0;
        while k < self.selected_edges.len()
            invariant
                *self == s0,
                k <= s0.selected_edges@.len(),
                pe == (|x: String| deletes_edge(s0.edges@, x@)),
                de@ == s0.selected_edges@.take(k as int).filter(pe),
            decreases s0.selected_edges@.len() - k,
        {
            let id = &self.selected_edges[k];
            let keep = match self.edge_index(id) {
                Some(i) => self.edges[i].deletable,
                None => false,
            };
            proof {
                if keep != pe(s0.selected_edges@[k as int]) {
                    if !keep {
                        let j = choose|j: int| first_edge(s0.edges@, s0.selected_edges@[k as int]@, j) && s0.edges@[j].deletable;
                    }
                }
            }
            if keep {
                de.push(self.selected_edges[k].clone());
            }
            proof {
                let t = s0.selected_edges@.take(k + 1);
                assert(t.drop_last() =~= s0.selected_edges@.take(k as int));
                assert(t.last() == s0.selected_edges@[k as int]);
                reveal(Seq::filter);
            }
            k += 1;
        }
        proof {
            assert(s0.selected_edges@.take(s0.selected_edges@.len() as int) =~= s0.selected_edges@);
        }
        // Which nodes and edges go.
        let mut node_mask: Vec<bool> = Vec::new();
        let mut k: usize = 0;
        while k < self.nodes.len()
            invariant
                *self == s0,
                k <= s0.nodes@.len(),
                node_mask@.len() == k,
                forall|j: int| 0 <= j < k ==> node_mask@[j] == has_id(dn@, s0.nodes@[j].id@),
            decreases s0.nodes@.len() - k,
        {
            node_mask.push(contains_id(&dn, &self.nodes[k].id));
            k += 1;
        }
        let mut edge_mask: Vec<bool> = Vec::new();
        let mut gone: Vec<String> = Vec::new();
        let mut k: usize = 0;
        while k < self.edges.len()
            invariant
                *self == s0,
                dn@ == doomed_nodes(s0.nodes@, s0.selected_nodes@),
                de@ == doomed_edges(s0.edges@, s0.selected_edges@),
                k <= s0.edges@.len(),
                edge_mask@.len() == k,
                forall|j: int| 0 <= j < k ==> edge_mask@[j] == edge_goes(s0.nodes@, s0.edges@, s0.selected_nodes@, s0.selected_edges@, s0.edges@[j]),
                distinct_ids(gone@),
                forall|x: Seq<char>| #![trigger has_id(gone@, x)] has_id(gone@, x)
                    <==> exists|i: int| 0 <= i < k && edge_goes(s0.nodes@, s0.edges@, s0.selected_nodes@, s0.selected_edges@, s0.edges@[i]) && s0.edges@[i].id@ == x,
            decreases s0.edges@.len() - k,
        {
            let e = &self.edges[k];
            let goes = contains_id(&de, &e.id) || contains_id(&dn, &e.source) || contains_id(&dn, &e.target);
            edge_mask.push(goes);
            let ghost before = gone@;
            if goes {
                add_id(&mut gone, &self.edges[k].id);
            }
            proof {
                let eid = s0.edges@[k as int].id@;
                assert forall|x: Seq<char>| #![trigger has_id(gone@, x)] has_id(gone@, x)
                    <==> exists|i: int| 0 <= i < k + 1 && edge_goes(s0.nodes@, s0.edges@, s0.selected_nodes@, s0.selected_edges@, s0.edges@[i]) && s0.edges@[i].id@ == x by {
                    if has_id(before, x) {
                        let i = choose|i: int| 0 <= i < k && edge_goes(s0.nodes@, s0.edges@, s0.selected_nodes@, s0.selected_edges@, s0.edges@[i]) && s0.edges@[i].id@ == x;
                        assert(0 <= i < k + 1 && edge_goes(s0.nodes@, s0.edges@, s0.selected_nodes@, s0.selected_edges@, s0.edges@[i]) && s0.edges@[i].id@ == x);
                        let j = choose|j: int| 0 <= j < before.len() && before[j]@ == x;
                        if goes && !has_id(before, eid) {
                            assert(gone@[j]@ == x);
                        }
                    }
                    if exists|i: int| 0 <= i < k + 1 && edge_goes(s0.nodes@, s0.edges@, s0.selected_nodes@, s0.selected_edges@, s0.edges@[i]) && s0.edges@[i].id@ == x {
                        let i = choose|i: int| 0 <= i < k + 1 && edge_goes(s0.nodes@, s0.edges@, s0.selected_nodes@, s0.selected_edges@, s0.edges@[i]) && s0.edges@[i].id@ == x;
                        if i == k {
                            if !has_id(before, x) {
                                assert(gone@[gone@.len() - 1]@ == x);
                            }
                        } else {
                            assert(has_id(before, x));
                        }
                    }
                    if goes && !has_id(before, eid) && has_id(gone@, x) && !has_id(before, x) {
                        let j = choose|j: int| 0 <= j < gone@.len() && gone@[j]@ == x;
                        if j < before.len() {
                            assert(before[j]@ == x);
                        }
                        assert(x == eid);
                    }
                }
            }
            k += 1;
        }
        proof {
            lemma_masked_filter(s0.nodes@, node_mask@, |n: Node| !has_id(doomed_nodes(s0.nodes@, s0.selected_nodes@), n.id@));
            lemma_masked_filter(s0.edges@, edge_mask@, |e: Edge| !edge_goes(s0.nodes@, s0.edges@, s0.selected_nodes@, s0.selected_edges@, e));
            lemma_masked_distinct(s0.nodes@, node_mask@, |n: Node| n.id@);
            lemma_masked_contains(s0.nodes@, node_mask@);
        }
        retain_unmasked(&mut self.nodes, &node_mask);
        retain_unmasked(&mut self.edges, &edge_mask);
        self.selected_nodes.clear();
        self.selected_edges.clear();
        proof {
            assert forall|i: int| 0 <= i < self.nodes@.len() implies self.nodes@[i].z_index <= self.max_z_index by {
                assert(s0.nodes@.contains(self.nodes@[i]));
            }
        }
        self.clear_selection();
        (dn, gone)
    }
}


/// Running layer maximum after adding the nodes `cs` in order to a
/// diagram whose maximum is `m`, as `add_node` keeps it.
pub open spec fn max_after_adding(m: int, cs: Seq<Node>) -> int
    decreases cs.len(),
{
    if cs.len() == 0 {
        m
    } else {
        let p = max_after_adding(m, cs.drop_last());
        let z = cs.last().z_index as int;
        if z == 0 { p + 1 } else if z > p { z } else { p }
    }
}

/// Layer `add_node` gives node `k` of `cs` when the nodes are added in order.
pub open spec fn paste_layer(m: int, cs: Seq<Node>, k: int) -> int {
    if cs[k].z_index == 0 { max_after_adding(m, cs.take(k)) + 1 } else { cs[k].z_index as int }
}

/// Node `n` is the paste of clipboard node `c` under the id `id`, moved by
/// `offset`, selected, on layer `z`.
pub open spec fn pasted_node(n: Node, c: Node, id: Seq<char>, offset: Position, z: int) -> bool {
    &&& n.id@ == id
    &&& n.position == shifted(c.position, offset.x, offset.y)
    &&& n.selected
    &&& n.z_index == z
    &&& n.same(&Node { id: n.id, position: n.position, selected: true, z_index: n.z_index, ..c })
}

/// Edge `e` is clipboard edge `c` with a new id and its ends moved to `src`
/// and `dst`.
pub open spec fn pasted_edge(e: Edge, c: Edge, src: Seq<char>, dst: Seq<char>) -> bool {
    &&& e.source@ == src
    &&& e.target@ == dst
    &&& e == (Edge { id: e.id, source: e.source, target: e.target, ..c })
}

/// Edge `e` is a clipboard edge pasted between the copies of its ends.
pub open spec fn is_pasted_clip_edge(e: Edge, clip: ClipboardData, ids: Seq<String>) -> bool {
    exists|j: int, a: int, b: int| clip_edge_ends(clip, j, a, b) && pasted_edge(e, clip.edges@[j], ids[a]@, ids[b]@)
}

/// Clipboard edge `j` has both ends among the clipboard nodes, the first
/// nodes with those ids being `a` and `b`.
pub open spec fn clip_edge_ends(clip: ClipboardData, j: int, a: int, b: int) -> bool {
    &&& 0 <= j < clip.edges@.len()
    &&& first_node(clip.nodes@, clip.edges@[j].source@, a)
    &&& first_node(clip.nodes@, clip.edges@[j].target@, b)
}

/// Some edge of `es` joins `src` and `dst` at the places clipboard edge `c` names.
pub open spec fn joined(es: Seq<Edge>, c: Edge, src: Seq<char>, dst: Seq<char>) -> bool {
    exists|i: int| 0 <= i < es.len() && same_link(
        es[i].source@, es[i].target@, es[i].source_handle, es[i].source_handle_id, es[i].target_handle, es[i].target_handle_id,
        src, dst, c.source_handle, c.source_handle_id, c.target_handle, c.target_handle_id,
    )
}

/// Edge `i` of `es` is clipboard edge `origin[i - e0].0` pasted between the
/// clipboard nodes `origin[i - e0].1` and `origin[i - e0].2`.
pub open spec fn from_clip_at(es: Seq<Edge>, e0: int, origin: Seq<(int, int, int)>, clip: ClipboardData, ids: Seq<String>, i: int) -> bool {
    let t = origin[i - e0];
    clip_edge_ends(clip, t.0, t.1, t.2) && pasted_edge(es[i], clip.edges@[t.0], ids[t.1]@, ids[t.2]@)
}

/// Every edge of `es` from `e0` on is a pasted clipboard edge, as `origin` records.
pub open spec fn pasted_from(es: Seq<Edge>, e0: int, origin: Seq<(int, int, int)>, clip: ClipboardData, ids: Seq<String>) -> bool {
    &&& origin.len() == es.len() - e0
    &&& forall|i: int| e0 <= i < es.len() ==> #[trigger] from_clip_at(es, e0, origin, clip, ids, i)
}

/// The new id paired with the first pair whose old id is `key`.
fn lookup_pair(pairs: &Vec<(String, String)>, key: &String) -> (r: Option<String>)
    ensures
        r.is_none() ==> forall|a: int| 0 <= a < pairs@.len() ==> pairs@[a].0@ != key@,
        r.is_some() ==> exists|a: int| 0 <= a < pairs@.len() && pairs@[a].0@ == key@ && pairs@[a].1@ == r.unwrap()@
            && forall|b: int| 0 <= b < a ==> pairs@[b].0@ != key@,
{
    let mut i: usize = 0;
    while i < pairs.len()
        invariant
            i <= pairs@.len(),
            forall|b: int| 0 <= b < i ==> pairs@[b].0@ != key@,
        decreases pairs@.len() - i,
    {
        if pairs[i].0 == *key {
            return Some(pairs[i].1.clone());
        }
        i += 1;
    }
    None
}

impl FlowState {
    /// Puts copies of the selected nodes, and of the edges both of whose
    /// ends are selected, on the clipboard.
    pub fn copy_selected(&mut self)
        requires
            old(self).wf(),
        ensures
            final(self).wf(),
            copied_into(*old(self), final(self).clipboard),
            final(self).nodes == old(self).nodes && final(self).edges == old(self).edges,
            final(self).selected_nodes == old(self).selected_nodes,
            final(self).selected_edges == old(self).selected_edges,
            final(self).keeps_settings(old(self)),
            final(self).connection == old(self).connection,
            final(self).undo_stack == old(self).undo_stack && final(self).redo_stack == old(self).redo_stack,
            final(self).max_z_index == old(self).max_z_index,
    {
        let ghost pn = |n: Node| has_id(self.selected_nodes@, n.id@);
        let ghost pe = |e: Edge| has_id(self.selected_nodes@, e.source@) && has_id(self.selected_nodes@, e.target@);
        let mut nodes: Vec<Node> = Vec::new();
        let mut k: usize = 0;
        while k < self.nodes.len()
            invariant
                *self == *old(self),
                k <= self.nodes@.len(),
                pn == (|n: Node| has_id(self.selected_nodes@, n.id@)),
                same_nodes(nodes@, self.nodes@.take(k as int).filter(pn)),
            decreases self.nodes@.len() - k,
        {
            let ghost before = nodes@;
            if contains_id(&self.selected_nodes, &self.nodes[k].id) {
                nodes.push(self.nodes[k].clone());
            }
            proof {
                let t = self.nodes@.take(k + 1);
                assert(t.drop_last() =~= self.nodes@.take(k as int));
                assert(t.last() == self.nodes@[k as int]);
                reveal(Seq::filter);
                let f = t.filter(pn);
                if pn(self.nodes@[k as int]) {
                    assert forall|i: int| 0 <= i < nodes@.len() implies #[trigger] nodes@[i].same(&f[i]) by {
                        if i < before.len() {
                            assert(before[i].same(&self.nodes@.take(k as int).filter(pn)[i]));
                        }
                    }
                }
            }
            k += 1;
        }
        let mut edges: Vec<Edge> = Vec::new();
        let mut k: usize = 0;
        while k < self.edges.len()
            invariant
                *self == *old(self),
                k <= self.edges@.len(),
                pe == (|e: Edge| has_id(self.selected_nodes@, e.source@) && has_id(self.selected_nodes@, e.target@)),
                edges@ == self.edges@.take(k as int).filter(pe),
            decreases self.edges@.len() - k,
        {
            if contains_id(&self.selected_nodes, &self.edges[k].source) && contains_id(&self.selected_nodes, &self.edges[k].target) {
                edges.push(self.edges[k].clone());
            }
            proof {
                let t = self.edges@.take(k + 1);
                assert(t.drop_last() =~= self.edges@.take(k as int));
                assert(t.last() == self.edges@[k as int]);
                reveal(Seq::filter);
            }
            k += 1;
        }
        proof {
            assert(self.nodes@.take(self.nodes@.len() as int) =~= self.nodes@);
            assert(self.edges@.take(self.edges@.len() as int) =~= self.edges@);
        }
        self.clipboard = ClipboardData { nodes, edges };
    }

    /// Copies the selection to the clipboard, then deletes it as
    /// `delete_selected` does.
    pub fn cut_selected(&mut self) -> (r: (Vec<String>, Vec<String>))
        requires
            old(self).wf(),
        ensures
            final(self).wf(),
            copied_into(*old(self), final(self).clipboard),
            deleted(*old(self), *final(self), r.0@, r.1@),
    {
        self.copy_selected();
        self.delete_selected()
    }

    /// Whether the clipboard holds any node.
    pub fn has_clipboard_content(&self) -> (r: bool)
        ensures
            r == (self.clipboard.nodes@.len() > 0),
    {
        !self.clipboard.nodes.is_empty()
    }

    /// An id no node has, made from `base` by appending characters as needed.
    fn fresh_node_id(&self, base: String) -> (r: String)
        ensures
            forall|i: int| 0 <= i < self.nodes@.len() ==> self.nodes@[i].id@ != r@,
            r@.len() >= base@.len(),
            r@.take(base@.len() as int) == base@,
    {
        let mut longest: usize = 0;
        let mut i: usize = 0;
        while i < self.nodes.len()
            invariant
                i <= self.nodes@.len(),
                forall|j: int| 0 <= j < i ==> self.nodes@[j].id@.len() <= longest,
            decreases self.nodes@.len() - i,
        {
            let l = self.nodes[i].id.as_str().unicode_len();
            if l > longest {
                longest = l;
            }
            i += 1;
        }
        let mut id = base;
        let ghost b = id@;
        while id.as_str().unicode_len() <= longest && self.node_index(&id).is_some()
            invariant
                forall|j: int| 0 <= j < self.nodes@.len() ==> self.nodes@[j].id@.len() <= longest,
                id@.len() >= b.len(),
                id@.take(b.len() as int) == b,
            decreases longest + 1 - id@.len(),
        {
            let ghost prev = id@;
            id.append("~");
            proof {
                reveal_strlit("~");
                assert(id@.take(b.len() as int) =~= prev.take(b.len() as int));
            }
        }
        id
    }

    /// Resources a paste needs: moved positions and new layers stay in the
    /// `i64` range.
    pub open spec fn paste_fits(&self, offset: Position) -> bool {
        let n = self.clipboard.nodes@.len();
        &&& forall|k: int| 0 <= k < n ==> fits_i64(#[trigger] self.clipboard.nodes@[k].position.x + offset.x)
        &&& forall|k: int| 0 <= k < n ==> fits_i64(#[trigger] self.clipboard.nodes@[k].position.y + offset.y)
        &&& self.max_z_index + n < i64::MAX
        &&& forall|k: int| 0 <= k < n ==> #[trigger] self.clipboard.nodes@[k].z_index + n < i64::MAX
    }

    /// An id no edge has, made from `base` by appending characters as needed.
    fn fresh_edge_id(&self, base: String) -> (r: String)
        ensures
            forall|i: int| 0 <= i < self.edges@.len() ==> self.edges@[i].id@ != r@,
            r@.len() >= base@.len(),
            r@.take(base@.len() as int) == base@,
    {
        let mut longest: usize = 0;
        let mut i: usize = 0;
        while i < self.edges.len()
            invariant
                i <= self.edges@.len(),
                forall|j: int| 0 <= j < i ==> self.edges@[j].id@.len() <= longest,
            decreases self.edges@.len() - i,
        {
            let l = self.edges[i].id.as_str().unicode_len();
            if l > longest {
                longest = l;
            }
            i += 1;
        }
        let mut id = base;
        let ghost b = id@;
        while id.as_str().unicode_len() <= longest && self.edge_index(&id).is_some()
            invariant
                forall|j: int| 0 <= j < self.edges@.len() ==> self.edges@[j].id@.len() <= longest,
                id@.len() >= b.len(),
                id@.take(b.len() as int) == b,
            decreases longest + 1 - id@.len(),
        {
            let ghost prev = id@;
            id.append("~");
            proof {
                reveal_strlit("~");
                assert(id@.take(b.len() as int) =~= prev.take(b.len() as int));
            }
        }
        id
    }

    /// Pastes the clipboard moved by `offset`: each node gets a fresh id and
    /// is added selected through the normal add path, the rest of the
    /// selection cleared; each clipboard edge whose ends are both pasted is
    /// added with a fresh id and its ends moved to the new ids, unless an
    /// edge joins those places already. Returns the new node ids; nothing
    /// happens with an empty clipboard.
    pub fn paste(&mut self, offset: Position) -> (r: Vec<String>)
        requires
            old(self).wf(),
            old(self).paste_fits(offset),
        ensures
            final(self).wf(),
            old(self).clipboard.nodes@.len() == 0 ==> r@.len() == 0 && *final(self) == *old(self),
            old(self).clipboard.nodes@.len() > 0 ==> {
                let n0 = old(self).nodes@.len() as int;
                let e0 = old(self).edges@.len() as int;
                let clip = old(self).clipboard;
                let es = final(self).edges@;
                &&& r@.len() == clip.nodes@.len()
                &&& final(self).nodes@.len() == n0 + clip.nodes@.len()
                &&& final(self).nodes@.take(n0) == unselect_nodes(old(self).nodes@)
                &&& forall|k: int| 0 <= k < clip.nodes@.len() ==> pasted_node(#[trigger] final(self).nodes@[n0 + k], clip.nodes@[k], r@[k]@, offset,
                    paste_layer(old(self).max_z_index as int, clip.nodes@, k))
                &&& final(self).max_z_index == max_after_adding(old(self).max_z_index as int, clip.nodes@)
                &&& forall|k: int, i: int| 0 <= k < r@.len() && 0 <= i < n0 ==> r@[k]@ != old(self).nodes@[i].id@
                &&& final(self).selected_nodes@ == r@
                &&& final(self).selected_edges@.len() == 0
                &&& es.len() >= e0
                &&& es.take(e0) == unselect_edges(old(self).edges@)
                &&& forall|i: int| e0 <= i < es.len() ==> is_pasted_clip_edge(#[trigger] es[i], clip, r@)
                &&& forall|i: int, h: int| e0 <= i < es.len() && 0 <= h < es.len() && i != h ==> es[i].id@ != es[h].id@
                &&& forall|j: int, a: int, b: int| #[trigger] clip_edge_ends(clip, j, a, b) ==> joined(es, clip.edges@[j], r@[a]@, r@[b]@)
                &&& clip.edges@.len() == 0 ==> es == unselect_edges(old(self).edges@)
                &&& final(self).keeps_settings(old(self))
                &&& final(self).clipboard == clip
                &&& final(self).connection == old(self).connection
                &&& final(self).undo_stack == old(self).undo_stack && final(self).redo_stack == old(self).redo_stack
            },
    {
        if self.clipboard.nodes.len() == 0 {
            return Vec::new();
        }
        self.clear_selection();
        let ghost s1 = *self;
        let n = self.clipboard.nodes.len();
        let ghost n0 = self.nodes@.len() as int;
        let ghost m0 = old(self).max_z_index as int;
        let mut pairs: Vec<(String, String)> = Vec::new();
        let mut new_ids: Vec<String> = Vec::new();
        let mut k: usize = 0;
        while k < n
            invariant
                self.wf(),
                k <= n == self.clipboard.nodes@.len(),
                self.clipboard == old(self).clipboard,
                old(self).paste_fits(offset),
                m0 == old(self).max_z_index,
                self.max_z_index + (n - k) < i64::MAX,
                self.max_z_index == max_after_adding(m0, self.clipboard.nodes@.take(k as int)),
                self.nodes@.len() == n0 + k,
                n0 == old(self).nodes@.len(),
                self.nodes@.take(n0) == unselect_nodes(old(self).nodes@),
                forall|j: int| 0 <= j < k ==> pasted_node(#[trigger] self.nodes@[n0 + j], self.clipboard.nodes@[j], new_ids@[j]@, offset,
                    paste_layer(m0, self.clipboard.nodes@, j)),
                forall|j: int, i: int| 0 <= j < k && 0 <= i < n0 ==> new_ids@[j]@ != old(self).nodes@[i].id@,
                new_ids@.len() == k,
                pairs@.len() == k,
                forall|j: int| 0 <= j < k ==> #[trigger] pairs@[j].0@ == self.clipboard.nodes@[j].id@ && pairs@[j].1@ == new_ids@[j]@,
                self.selected_nodes@ == new_ids@,
                self.selected_edges@.len() == 0,
                self.edges@ == unselect_edges(old(self).edges@),
                self.keeps_settings(old(self)),
                self.connection == old(self).connection,
                self.undo_stack == old(self).undo_stack && self.redo_stack == old(self).redo_stack,
            decreases n - k,
        {
            let mut base = self.clipboard.nodes[k].id.clone();
            base.append("-copy-");
            let tag = random_uuid();
            base.append(tag.as_str());
            let fresh = self.fresh_node_id(base);
            let mut copy = self.clipboard.nodes[k].clone();
            proof {
                assert(fits_i64(self.clipboard.nodes@[k as int].position.x + offset.x));
                assert(fits_i64(self.clipboard.nodes@[k as int].position.y + offset.y));
                assert(self.clipboard.nodes@[k as int].z_index + n < i64::MAX);
                let t = self.clipboard.nodes@.take(k + 1);
                assert(t.drop_last() =~= self.clipboard.nodes@.take(k as int));
                assert(t.last() == self.clipboard.nodes@[k as int]);
            }
            copy.id = fresh.clone();
            copy.position = Position::new(copy.position.x + offset.x, copy.position.y + offset.y);
            copy.selected = true;
            let ghost prev = *self;
            self.add_node(copy);
            proof {
                assert(self.nodes@.take(n0) =~= prev.nodes@.take(n0));
                assert forall|j: int| 0 <= j < k + 1 implies pasted_node(#[trigger] self.nodes@[n0 + j], self.clipboard.nodes@[j], (if j < k { new_ids@[j]@ } else { fresh@ }), offset,
                    paste_layer(m0, self.clipboard.nodes@, j)) by {
                    if j < k {
                        assert(self.nodes@[n0 + j] == prev.nodes@[n0 + j]);
                    }
                }
                assert forall|i: int| 0 <= i < n0 implies fresh@ != old(self).nodes@[i].id@ by {
                    assert(prev.nodes@[i] == unselect_nodes(old(self).nodes@)[i]);
                }
                assert forall|a: int| 0 <= a < k implies new_ids@[a]@ != fresh@ by {
                    assert(pasted_node(prev.nodes@[n0 + a], self.clipboard.nodes@[a], new_ids@[a]@, offset, paste_layer(m0, self.clipboard.nodes@, a)));
                }
            }
            self.selected_nodes.push(fresh.clone());
            pairs.push((self.clipboard.nodes[k].id.clone(), fresh.clone()));
            new_ids.push(fresh);
            k += 1;
        }
        proof {
            assert(self.clipboard.nodes@.take(n as int) =~= self.clipboard.nodes@);
        }
        let ghost s2 = *self;
        let ghost clip = self.clipboard;
        let e0 = self.edges.len();
        let m = self.clipboard.edges.len();
        let mut j: usize = 0;
        let ghost mut origin: Seq<(int, int, int)> = Seq::empty();
        while j < m
            invariant
                self.wf(),
                j <= m == self.clipboard.edges@.len(),
                self.clipboard == old(self).clipboard,
                clip == old(self).clipboard,
                new_ids@.len() == n == self.clipboard.nodes@.len(),
                pairs@.len() == n,
                forall|a: int| 0 <= a < n ==> #[trigger] pairs@[a].0@ == self.clipboard.nodes@[a].id@ && pairs@[a].1@ == new_ids@[a]@,
                e0 == old(self).edges@.len(),
                j == 0 ==> self.edges == s2.edges,
                s2.edges@ == unselect_edges(old(self).edges@),
                self.edges@.len() >= e0,
                self.edges@.take(e0 as int) == unselect_edges(old(self).edges@),
                pasted_from(self.edges@, e0 as int, origin, clip, new_ids@),
                forall|i: int, h: int| e0 <= i < self.edges@.len() && 0 <= h < self.edges@.len() && i != h
                    ==> self.edges@[i].id@ != self.edges@[h].id@,
                forall|jj: int, a: int, b: int| #[trigger] clip_edge_ends(clip, jj, a, b) && jj < j
                    ==> joined(self.edges@, clip.edges@[jj], new_ids@[a]@, new_ids@[b]@),
                self.nodes == s2.nodes,
                self.selected_nodes == s2.selected_nodes,
                self.selected_edges == s2.selected_edges,
                self.max_z_index == s2.max_z_index,
                self.keeps_settings(old(self)),
                self.connection == old(self).connection,
                self.undo_stack == old(self).undo_stack && self.redo_stack == old(self).redo_stack,
            decreases m - j,
        {
            let src = lookup_pair(&pairs, &self.clipboard.edges[j].source);
            let tgt = lookup_pair(&pairs, &self.clipboard.edges[j].target);
            let ghost prev = self.edges@;
            if src.is_some() && tgt.is_some() {
                {
                    let s = src.unwrap();
                    let t = tgt.unwrap();
                    let mut base = self.clipboard.edges[j].id.clone();
                    base.append("-copy-");
                    let tag = random_uuid();
                    base.append(tag.as_str());
                    let id = self.fresh_edge_id(base);
                    let mut e = self.clipboard.edges[j].clone();
                    e.id = id;
                    e.source = s;
                    e.target = t;
                    let ghost ge = e;
                    let ghost a = choose|a: int| 0 <= a < pairs@.len() && pairs@[a].0@ == clip.edges@[j as int].source@
                        && pairs@[a].1@ == ge.source@ && forall|c: int| 0 <= c < a ==> pairs@[c].0@ != clip.edges@[j as int].source@;
                    let ghost b = choose|b: int| 0 <= b < pairs@.len() && pairs@[b].0@ == clip.edges@[j as int].target@
                        && pairs@[b].1@ == ge.target@ && forall|c: int| 0 <= c < b ==> pairs@[c].0@ != clip.edges@[j as int].target@;
                    proof {
                        assert(pairs@[a].0@ == clip.nodes@[a].id@);
                        assert(pairs@[b].0@ == clip.nodes@[b].id@);
                        assert forall|c: int| 0 <= c < a implies clip.nodes@[c].id@ != clip.edges@[j as int].source@ by {
                            assert(pairs@[c].0@ == clip.nodes@[c].id@);
                        }
                        assert forall|c: int| 0 <= c < b implies clip.nodes@[c].id@ != clip.edges@[j as int].target@ by {
                            assert(pairs@[c].0@ == clip.nodes@[c].id@);
                        }
                        assert(clip_edge_ends(clip, j as int, a, b));
                        assert(pasted_edge(ge, clip.edges@[j as int], new_ids@[a]@, new_ids@[b]@));
                    }
                    self.add_edge(e);
                    proof {
                        assert(self.edges@.take(e0 as int) =~= prev.take(e0 as int));
                        let old_origin = origin;
                        if self.edges@.len() > prev.len() {
                            origin = origin.push((j as int, a, b));
                        }
                        assert forall|i: int| e0 <= i < self.edges@.len() implies #[trigger] from_clip_at(self.edges@, e0 as int, origin, clip, new_ids@, i) by {
                            if i < prev.len() {
                                assert(from_clip_at(prev, e0 as int, old_origin, clip, new_ids@, i));
                                assert(self.edges@[i] == prev[i]);
                                assert(origin[i - e0] == old_origin[i - e0]);
                            } else {
                                assert(self.edges@[i] == ge);
                            }
                        }
                        assert forall|i: int, h: int| e0 <= i < self.edges@.len() && 0 <= h < self.edges@.len() && i != h
                            implies self.edges@[i].id@ != self.edges@[h].id@ by {
                            if self.edges@.len() > prev.len() {
                                if i < prev.len() && h < prev.len() {
                                    assert(self.edges@[i] == prev[i] && self.edges@[h] == prev[h]);
                                } else if i < prev.len() {
                                    assert(self.edges@[i] == prev[i]);
                                } else {
                                    assert(self.edges@[h] == prev[h]);
                                }
                            } else {
                                assert(self.edges@[i] == prev[i] && self.edges@[h] == prev[h]);
                            }
                        }
                        assert forall|jj: int, a2: int, b2: int| #[trigger] clip_edge_ends(clip, jj, a2, b2) && jj < j + 1
                            implies joined(self.edges@, clip.edges@[jj], new_ids@[a2]@, new_ids@[b2]@) by {
                            if jj < j {
                                let i = choose|i: int| 0 <= i < prev.len() && same_link(
                                    prev[i].source@, prev[i].target@, prev[i].source_handle, prev[i].source_handle_id, prev[i].target_handle, prev[i].target_handle_id,
                                    new_ids@[a2]@, new_ids@[b2]@, clip.edges@[jj].source_handle, clip.edges@[jj].source_handle_id,
                                    clip.edges@[jj].target_handle, clip.edges@[jj].target_handle_id);
                                assert(self.edges@[i] == prev[i]);
                            } else {
                                assert(a2 == a && b2 == b);
                                if exists|i: int| 0 <= i < prev.len() && prev[i].links_like(&ge) {
                                    let i = choose|i: int| 0 <= i < prev.len() && prev[i].links_like(&ge);
                                    assert(self.edges@[i] == prev[i]);
                                } else {
                                    assert(self.edges@[prev.len() as int] == ge);
                                }
                            }
                        }
                    }
                }
            } else {
                {
                    proof {
                        assert forall|i: int| e0 <= i < self.edges@.len() implies #[trigger] from_clip_at(self.edges@, e0 as int, origin, clip, new_ids@, i) by {
                            assert(from_clip_at(prev, e0 as int, origin, clip, new_ids@, i));
                            assert(self.edges@[i] == prev[i]);
                        }
                        assert forall|a2: int, b2: int| !clip_edge_ends(clip, j as int, a2, b2) by {
                            if clip_edge_ends(clip, j as int, a2, b2) {
                                if src.is_none() {
                                    assert(pairs@[a2].0@ == clip.nodes@[a2].id@);
                                } else {
                                    assert(pairs@[b2].0@ == clip.nodes@[b2].id@);
                                }
                            }
                        }
                    }
                }
            }
            j += 1;
        }
        proof {
            if m == 0 {
                assert(self.edges@ =~= unselect_edges(old(self).edges@));
            }
            assert forall|i: int| e0 <= i < self.edges@.len() implies is_pasted_clip_edge(#[trigger] self.edges@[i], clip, new_ids@) by {
                assert(from_clip_at(self.edges@, e0 as int, origin, clip, new_ids@, i));
                let t = origin[i - e0];
                assert(pasted_edge(self.edges@[i], clip.edges@[t.0], new_ids@[t.1]@, new_ids@[t.2]@));
                assert(clip_edge_ends(clip, t.0, t.1, t.2));
            }
        }
        new_ids
    }
}


/// Leftmost node origin.
pub open spec fn min_x_of(ns: Seq<Node>) -> int
    decreases ns.len(),
{
    if ns.len() <= 1 {
        if ns.len() == 0 { 0 } else { ns[0].position.x as int }
    } else {
        let m = min_x_of(ns.drop_last());
        if (ns.last().position.x as int) < m { ns.last().position.x as int } else { m }
    }
}

/// Topmost node origin.
pub open spec fn min_y_of(ns: Seq<Node>) -> int
    decreases ns.len(),
{
    if ns.len() <= 1 {
        if ns.len() == 0 { 0 } else { ns[0].position.y as int }
    } else {
        let m = min_y_of(ns.drop_last());
        if (ns.last().position.y as int) < m { ns.last().position.y as int } else { m }
    }
}

/// Rightmost edge of a node box.
pub open spec fn max_right_of(ns: Seq<Node>) -> int
    decreases ns.len(),
{
    if ns.len() <= 1 {
        if ns.len() == 0 { 0 } else { ns[0].position.x + ns[0].spec_width() }
    } else {
        let m = max_right_of(ns.drop_last());
        let r = ns.last().position.x + ns.last().spec_width();
        if r > m { r } else { m }
    }
}

/// Lowest edge of a node box.
pub open spec fn max_bottom_of(ns: Seq<Node>) -> int
    decreases ns.len(),
{
    if ns.len() <= 1 {
        if ns.len() == 0 { 0 } else { ns[0].position.y + ns[0].spec_height() }
    } else {
        let m = max_bottom_of(ns.drop_last());
        let r = ns.last().position.y + ns.last().spec_height();
        if r > m { r } else { m }
    }
}

/// Zoom at which content of the given extent fits the container, at most
/// 1:1 and at least `MIN_ZOOM`.
pub open spec fn fit_zoom(content_w: int, content_h: int, cw: int, ch: int) -> int {
    let zx = if content_w > 0 { cw * ZOOM_ONE / content_w } else { ZOOM_ONE as int };
    let zy = if content_h > 0 { ch * ZOOM_ONE / content_h } else { ZOOM_ONE as int };
    let z = if zx < zy { zx } else { zy };
    let z = if z > ZOOM_ONE { ZOOM_ONE as int } else { z };
    if z < MIN_ZOOM { MIN_ZOOM as int } else { z }
}

/// Offset that centres content starting at `lo` of extent `content` in a
/// container of size `c`.
pub open spec fn fit_offset(lo: int, pad: int, content: int, c: int, zoom: int) -> int {
    (c - content * zoom / (ZOOM_ONE as int)) / 2 - (lo - pad) * zoom / (ZOOM_ONE as int)
}

/// The camera that fits all nodes, with `pad` units around them, into a
/// container of the given size.
pub open spec fn fitted(ns: Seq<Node>, pad: int, cw: int, ch: int) -> (int, int, int) {
    let content_w = max_right_of(ns) - min_x_of(ns) + 2 * pad;
    let content_h = max_bottom_of(ns) - min_y_of(ns) + 2 * pad;
    let z = fit_zoom(content_w, content_h, cw, ch);
    (fit_offset(min_x_of(ns), pad, content_w, cw, z), fit_offset(min_y_of(ns), pad, content_h, ch, z), z)
}

proof fn lemma_bbox_bounds(ns: Seq<Node>)
    ensures
        i64::MIN <= min_x_of(ns) <= i64::MAX,
        i64::MIN <= min_y_of(ns) <= i64::MAX,
        i64::MIN <= max_right_of(ns) <= i64::MAX + 0x1_0000_0000,
        i64::MIN <= max_bottom_of(ns) <= i64::MAX + 0x1_0000_0000,
    decreases ns.len(),
{
    if ns.len() > 1 {
        lemma_bbox_bounds(ns.drop_last());
    }
}

/// Bounding box `(min_x, min_y, max_x, max_y)` of the nodes' boxes; a
/// 100 by 100 box at the origin where there are none.
pub fn calculate_bounds(nodes: &Vec<Node>) -> (r: (i128, i128, i128, i128))
    ensures
        nodes@.len() == 0 ==> r == (0i128, 0i128, 100i128, 100i128),
        nodes@.len() > 0 ==> r == (min_x_of(nodes@) as i128, min_y_of(nodes@) as i128, max_right_of(nodes@) as i128, max_bottom_of(nodes@) as i128),
{
    let n = nodes.len();
    if n == 0 {
        return (0, 0, 100, 100);
    }
    let mut min_x: i128 = nodes[0].position.x as i128;
    let mut min_y: i128 = nodes[0].position.y as i128;
    let mut max_x: i128 = nodes[0].position.x as i128 + nodes[0].width_or_default() as i128;
    let mut max_y: i128 = nodes[0].position.y as i128 + nodes[0].height_or_default() as i128;
    let mut i: usize = 1;
    proof {
        assert(nodes@.take(1).drop_last() =~= Seq::<Node>::empty());
    }
    while i < n
        invariant
            1 <= i <= n == nodes@.len(),
            min_x == min_x_of(nodes@.take(i as int)),
            min_y == min_y_of(nodes@.take(i as int)),
            max_x == max_right_of(nodes@.take(i as int)),
            max_y == max_bottom_of(nodes@.take(i as int)),
        decreases n - i,
    {
        proof {
            let t = nodes@.take(i + 1);
            assert(t.drop_last() =~= nodes@.take(i as int));
            assert(t.last() == nodes@[i as int]);
            lemma_bbox_bounds(nodes@.take(i as int));
        }
        let node = &nodes[i];
        let px = node.position.x as i128;
        let py = node.position.y as i128;
        if px < min_x {
            min_x = px;
        }
        if py < min_y {
            min_y = py;
        }
        let r = px + node.width_or_default() as i128;
        let b = py + node.height_or_default() as i128;
        if r > max_x {
            max_x = r;
        }
        if b > max_y {
            max_y = b;
        }
        i += 1;
    }
    proof {
        assert(nodes@.take(n as int) =~= nodes@);
    }
    (min_x, min_y, max_x, max_y)
}

impl FlowState {
    /// Only the camera differs from `o`.
    pub open spec fn camera_change_only(&self, o: &FlowState) -> bool {
        &&& self.nodes == o.nodes && self.edges == o.edges
        &&& self.selected_nodes == o.selected_nodes && self.selected_edges == o.selected_edges
        &&& self.snap_grid == o.snap_grid
        &&& self.default_edge_options == o.default_edge_options
        &&& self.connection_valid == o.connection_valid
        &&& self.connection == o.connection
        &&& self.clipboard == o.clipboard
        &&& self.undo_stack == o.undo_stack && self.redo_stack == o.redo_stack
        &&& self.max_z_index == o.max_z_index
    }

    /// Sets the camera; its zoom is brought into range.
    pub fn set_viewport(&mut self, viewport: Viewport)
        requires
            old(self).wf(),
        ensures
            final(self).wf(),
            final(self).camera_change_only(old(self)),
            final(self).viewport == (Viewport { zoom: clamp_zoom(viewport.zoom as int) as u32, ..viewport }),
    {
        self.viewport = Viewport::new(viewport.x, viewport.y, viewport.zoom);
    }

    /// Moves the camera by `(dx, dy)` screen units.
    pub fn pan(&mut self, dx: i64, dy: i64)
        requires
            old(self).wf(),
            fits_i64(old(self).viewport.x + dx),
            fits_i64(old(self).viewport.y + dy),
        ensures
            final(self).wf(),
            final(self).camera_change_only(old(self)),
            final(self).viewport == (Viewport { x: (old(self).viewport.x + dx) as i64, y: (old(self).viewport.y + dy) as i64, ..old(self).viewport }),
    {
        self.viewport.x = self.viewport.x + dx;
        self.viewport.y = self.viewport.y + dy;
    }

    /// Zooming to `new_zoom` around `(cx, cy)` keeps the offsets in range.
    pub open spec fn zoom_fits(&self, new_zoom: int, cx: int, cy: int) -> bool {
        &&& fits_i64(zoomed_offset(cx, self.viewport.x as int, self.viewport.zoom as int, new_zoom))
        &&& fits_i64(zoomed_offset(cy, self.viewport.y as int, self.viewport.zoom as int, new_zoom))
    }

    /// The camera after zooming to `new_zoom` around `(cx, cy)`.
    pub open spec fn zoomed(&self, new_zoom: int, cx: int, cy: int) -> Viewport {
        Viewport {
            x: zoomed_offset(cx, self.viewport.x as int, self.viewport.zoom as int, new_zoom) as i64,
            y: zoomed_offset(cy, self.viewport.y as int, self.viewport.zoom as int, new_zoom) as i64,
            zoom: new_zoom as u32,
        }
    }

    fn zoom_to(&mut self, new_zoom: u32, cx: i64, cy: i64)
        requires
            old(self).wf(),
            MIN_ZOOM <= new_zoom <= MAX_ZOOM,
            old(self).zoom_fits(new_zoom as int, cx as int, cy as int),
        ensures
            final(self).wf(),
            final(self).camera_change_only(old(self)),
            final(self).viewport == old(self).zoomed(new_zoom as int, cx as int, cy as int),
    {
        let z = self.viewport.zoom as i128;
        let nz = new_zoom as i128;
        let dx = cx as i128 - self.viewport.x as i128;
        let dy = cy as i128 - self.viewport.y as i128;
        proof {
            assert(-0x4_0000_0000_0000_0000 * 4000 <= dx * nz <= 0x4_0000_0000_0000_0000 * 4000) by (nonlinear_arith)
                requires -0x4_0000_0000_0000_0000 <= dx <= 0x4_0000_0000_0000_0000, 0 <= nz <= 4000;
            assert(-0x4_0000_0000_0000_0000 * 4000 <= dy * nz <= 0x4_0000_0000_0000_0000 * 4000) by (nonlinear_arith)
                requires -0x4_0000_0000_0000_0000 <= dy <= 0x4_0000_0000_0000_0000, 0 <= nz <= 4000;
        }
        let x = cx as i128 - floor_div((cx as i128 - self.viewport.x as i128) * nz, z);
        let y = cy as i128 - floor_div((cy as i128 - self.viewport.y as i128) * nz, z);
        self.viewport = Viewport { x: x as i64, y: y as i64, zoom: new_zoom };
    }

    /// Zoom after changing the current one by `delta`, brought into range.
    pub open spec fn zoom_by(&self, delta: int) -> int {
        clamp_zoom(self.viewport.zoom + delta)
    }

    /// Changes the zoom by `delta` thousandths, brought into range, keeping
    /// the diagram point under the screen point `(center_x, center_y)` in place.
    pub fn zoom(&mut self, delta: i32, center_x: i64, center_y: i64)
        requires
            old(self).wf(),
            old(self).zoom_fits(old(self).zoom_by(delta as int), center_x as int, center_y as int),
        ensures
            final(self).wf(),
            final(self).camera_change_only(old(self)),
            final(self).viewport == old(self).zoomed(old(self).zoom_by(delta as int), center_x as int, center_y as int),
    {
        let target = self.viewport.zoom as i64 + delta as i64;
        let nz: u32 = if target < MIN_ZOOM as i64 { MIN_ZOOM } else if target > MAX_ZOOM as i64 { MAX_ZOOM } else { target as u32 };
        self.zoom_to(nz, center_x, center_y);
    }

    /// Sets the zoom, brought into range, keeping the diagram point under
    /// the screen point `(center_x, center_y)` in place.
    pub fn set_zoom(&mut self, zoom: u32, center_x: i64, center_y: i64)
        requires
            old(self).wf(),
            old(self).zoom_fits(clamp_zoom(zoom as int), center_x as int, center_y as int),
        ensures
            final(self).wf(),
            final(self).camera_change_only(old(self)),
            final(self).viewport == old(self).zoomed(clamp_zoom(zoom as int), center_x as int, center_y as int),
    {
        let nz = clamp_zoom_exec(zoom);
        self.zoom_to(nz, center_x, center_y);
    }

    /// Zooms in by a fifth of 1:1 around the given screen point.
    pub fn zoom_in(&mut self, center_x: i64, center_y: i64)
        requires
            old(self).wf(),
            old(self).zoom_fits(old(self).zoom_by(200), center_x as int, center_y as int),
        ensures
            final(self).wf(),
            final(self).camera_change_only(old(self)),
            final(self).viewport == old(self).zoomed(old(self).zoom_by(200), center_x as int, center_y as int),
    {
        self.zoom(200, center_x, center_y);
    }

    /// Zooms out by a fifth of 1:1 around the given screen point.
    pub fn zoom_out(&mut self, center_x: i64, center_y: i64)
        requires
            old(self).wf(),
            old(self).zoom_fits(old(self).zoom_by(-200), center_x as int, center_y as int),
        ensures
            final(self).wf(),
            final(self).camera_change_only(old(self)),
            final(self).viewport == old(self).zoomed(old(self).zoom_by(-200), center_x as int, center_y as int),
    {
        self.zoom(-200, center_x, center_y);
    }

    /// Fitting the view keeps the camera offsets in range.
    pub open spec fn fit_view_fits(&self, padding: int, cw: int, ch: int) -> bool {
        let f = fitted(self.nodes@, padding, cw, ch);
        fits_i64(f.0) && fits_i64(f.1)
    }

    /// Sets the camera so that every node, with `padding` units around,
    /// shows centred in a container of the given size, at a zoom of at most
    /// 1:1; does nothing without nodes.
    pub fn fit_view(&mut self, padding: u32, container_width: u32, container_height: u32)
        requires
            old(self).wf(),
            old(self).fit_view_fits(padding as int, container_width as int, container_height as int),
        ensures
            final(self).wf(),
            final(self).camera_change_only(old(self)),
            old(self).nodes@.len() == 0 ==> final(self).viewport == old(self).viewport,
            old(self).nodes@.len() > 0 ==> {
                let f = fitted(old(self).nodes@, padding as int, container_width as int, container_height as int);
                final(self).viewport == (Viewport { x: f.0 as i64, y: f.1 as i64, zoom: f.2 as u32 })
            },
    {
        let n = self.nodes.len();
        if n == 0 {
            return;
        }
        let (min_x, min_y, max_x, max_y) = calculate_bounds(&self.nodes);
        proof {
            lemma_bbox_bounds(self.nodes@);
        }
        let pad = padding as i128;
        let cw = container_width as i128;
        let ch = container_height as i128;
        let content_w = max_x - min_x + 2 * pad;
        let content_h = max_y - min_y + 2 * pad;
        let zx: i128 = if content_w > 0 { cw * 1000 / content_w } else { 1000 };
        let zy: i128 = if content_h > 0 { ch * 1000 / content_h } else { 1000 };
        let z0 = if zx < zy { zx } else { zy };
        let z1 = if z0 > 1000 { 1000 } else { z0 };
        let z = if z1 < 100 { 100 } else { z1 };
        proof {
            assert(0 <= content_w * z <= 0x4_0000_0000_0000_0000 * 1000) by (nonlinear_arith)
                requires 0 <= content_w <= 0x4_0000_0000_0000_0000, 100 <= z <= 1000;
            assert(-0x4_0000_0000_0000_0000 * 1000 <= (min_x - pad) * z <= 0x4_0000_0000_0000_0000 * 1000) by (nonlinear_arith)
                requires -0x4_0000_0000_0000_0000 <= min_x - pad <= 0x4_0000_0000_0000_0000, 100 <= z <= 1000;
            assert(-0x4_0000_0000_0000_0000 * 1000 <= (min_y - pad) * z <= 0x4_0000_0000_0000_0000 * 1000) by (nonlinear_arith)
                requires -0x4_0000_0000_0000_0000 <= min_y - pad <= 0x4_0000_0000_0000_0000, 100 <= z <= 1000;
            assert(0 <= content_h * z <= 0x4_0000_0000_0000_0000 * 1000) by (nonlinear_arith)
                requires 0 <= content_h <= 0x4_0000_0000_0000_0000, 100 <= z <= 1000;
            assert(content_w >= 0 && content_h >= 0) by {
                assert(max_right_of(self.nodes@) >= min_x_of(self.nodes@)) by {
                    lemma_bbox_order(self.nodes@);
                }
                assert(max_bottom_of(self.nodes@) >= min_y_of(self.nodes@)) by {
                    lemma_bbox_order(self.nodes@);
                }
            }
            assert(0 <= cw * 1000 <= 0x1_0000_0000 * 1000);
        }
        let x = floor_div(cw - floor_div(content_w * z, 1000), 2) - floor_div((min_x - pad) * z, 1000);
        let y = floor_div(ch - floor_div(content_h * z, 1000), 2) - floor_div((min_y - pad) * z, 1000);
        self.viewport = Viewport { x: x as i64, y: y as i64, zoom: z as u32 };
    }

    /// Replaces the snap grid.
    pub fn set_snap_grid(&mut self, snap_grid: SnapGrid)
        requires
            old(self).wf(),
        ensures
            final(self).wf(),
            final(self).snap_grid == snap_grid,
            final(self).nodes == old(self).nodes && final(self).edges == old(self).edges,
            final(self).viewport == old(self).viewport,
            final(self).connection == old(self).connection,
    {
        self.snap_grid = snap_grid;
    }

    /// Turns snapping on or off, keeping the cell size.
    pub fn set_snap_enabled(&mut self, enabled: bool)
        requires
            old(self).wf(),
        ensures
            final(self).wf(),
            final(self).snap_grid == (SnapGrid { enabled, ..old(self).snap_grid }),
            final(self).nodes == old(self).nodes && final(self).edges == old(self).edges,
            final(self).viewport == old(self).viewport,
            final(self).connection == old(self).connection,
    {
        self.snap_grid.enabled = enabled;
    }
}

proof fn lemma_bbox_order(ns: Seq<Node>)
    ensures
        max_right_of(ns) >= min_x_of(ns),
        max_bottom_of(ns) >= min_y_of(ns),
    decreases ns.len(),
{
    if ns.len() > 1 {
        lemma_bbox_order(ns.drop_last());
    }
}


/// Node `a` is drawn before node `b`: a lower layer, or the same layer and
/// inserted earlier.
pub open spec fn drawn_before(ns: Seq<Node>, a: int, b: int) -> bool {
    ns[a].z_index < ns[b].z_index || (ns[a].z_index == ns[b].z_index && a < b)
}

/// `ix` lists every node index once, in drawing order.
pub open spec fn drawing_order(ns: Seq<Node>, ix: Seq<usize>) -> bool {
    &&& ix.len() == ns.len()
    &&& forall|k: int| 0 <= k < ix.len() ==> ix[k] < ns.len()
    &&& forall|k: int, l: int| 0 <= k < l < ix.len() ==> drawn_before(ns, ix[k] as int, ix[l] as int)
}

/// `ids` names a string whose view is `id`.
pub open spec fn names(ids: Seq<&str>, id: Seq<char>) -> bool {
    exists|j: int| 0 <= j < ids.len() && ids[j]@ == id
}

fn names_exec(ids: &[&str], id: &String) -> (r: bool)
    ensures
        r == names(ids@, id@),
{
    let mut j: usize = 0;
    while j < ids.len()
        invariant
            j <= ids@.len(),
            forall|i: int| 0 <= i < j ==> ids@[i]@ != id@,
        decreases ids@.len() - j,
    {
        if ids[j].to_owned() == *id {
            return true;
        }
        j += 1;
    }
    false
}

impl FlowState {
    /// Node indices in drawing order: ascending layer, ties in insertion order.
    pub fn z_order(&self) -> (r: Vec<usize>)
        ensures
            drawing_order(self.nodes@, r@),
    {
        let ghost ns = self.nodes@;
        let n = self.nodes.len();
        let mut r: Vec<usize> = Vec::new();
        let mut i: usize = 0;
        while i < n
            invariant
                i <= n == ns.len(),
                ns == self.nodes@,
                r@.len() == i,
                forall|k: int| 0 <= k < r@.len() ==> r@[k] < i,
                forall|k: int, l: int| 0 <= k < l < r@.len() ==> drawn_before(ns, r@[k] as int, r@[l] as int),
            decreases n - i,
        {
            let z = self.nodes[i].z_index;
            let mut p: usize = r.len();
            while p > 0 && self.nodes[r[p - 1]].z_index > z
                invariant
                    p <= r@.len() == i,
                    i < n == ns.len(),
                    ns == self.nodes@,
                    z == ns[i as int].z_index,
                    forall|k: int| 0 <= k < r@.len() ==> r@[k] < i,
                    forall|k: int| p <= k < r@.len() ==> ns[r@[k] as int].z_index > z,
                decreases p,
            {
                p -= 1;
            }
            proof {
                assert forall|k: int| 0 <= k < p implies ns[r@[k] as int].z_index <= z by {
                    if k < p - 1 {
                        assert(drawn_before(ns, r@[k] as int, r@[p - 1] as int));
                    }
                }
            }
            let ghost old_r = r@;
            r.insert(p, i);
            proof {
                assert forall|k: int, l: int| 0 <= k < l < r@.len() implies drawn_before(ns, r@[k] as int, r@[l] as int) by {
                    if l < p {
                        assert(r@[k] == old_r[k] && r@[l] == old_r[l]);
                    } else if l == p {
                        assert(r@[k] == old_r[k]);
                    } else if k == p {
                        assert(r@[l] == old_r[l - 1]);
                    } else if k < p {
                        assert(r@[k] == old_r[k] && r@[l] == old_r[l - 1]);
                    } else {
                        assert(r@[k] == old_r[k - 1] && r@[l] == old_r[l - 1]);
                    }
                }
                assert forall|k: int| 0 <= k < r@.len() implies r@[k] < i + 1 by {
                    if k < p {
                        assert(r@[k] == old_r[k]);
                    } else if k > p {
                        assert(r@[k] == old_r[k - 1]);
                    }
                }
            }
            i += 1;
        }
        r
    }

    /// The nodes in drawing order: ascending layer, ties in insertion order.
    pub fn nodes_sorted_by_z_index(&self) -> (r: Vec<&Node>)
        ensures
            exists|ix: Seq<usize>| drawing_order(self.nodes@, ix)
                && forall|k: int| 0 <= k < ix.len() ==> *r@[k] == self.nodes@[ix[k] as int],
            r@.len() == self.nodes@.len(),
    {
        let order = self.z_order();
        let mut r: Vec<&Node> = Vec::new();
        let mut k: usize = 0;
        while k < order.len()
            invariant
                k <= order@.len(),
                drawing_order(self.nodes@, order@),
                r@.len() == k,
                forall|j: int| 0 <= j < k ==> *r@[j] == self.nodes@[order@[j] as int],
            decreases order@.len() - k,
        {
            r.push(&self.nodes[order[k]]);
            k += 1;
        }
        r
    }

    /// Node `i` of the selection base is named in `ids` and may be selected.
    pub open spec fn listed(&self, ids: Seq<&str>, i: int) -> bool {
        self.nodes@[i].selectable && names(ids, self.nodes@[i].id@)
    }

    /// Selects the selectable nodes named in `ids`, first clearing the
    /// selection unless `multi`; their ids follow in node order. Unknown ids and nodes that may not be
    /// selected are passed over.
    pub fn select_nodes(&mut self, ids: &[&str], multi: bool)
        requires
            old(self).wf(),
        ensures
            final(self).wf(),
            final(self).nodes@.len() == old(self).nodes@.len(),
            forall|i: int| 0 <= i < old(self).nodes@.len() ==> final(self).nodes@[i] == if old(self).listed(ids@, i) {
                selected_node(old(self).base_nodes(multi)[i])
            } else {
                old(self).base_nodes(multi)[i]
            },
            final(self).selected_nodes@.take(old(self).base_selected_nodes(multi).len() as int) == old(self).base_selected_nodes(multi),
            forall|s: Seq<char>| #![trigger has_id(final(self).selected_nodes@, s)] has_id(final(self).selected_nodes@, s) <==> has_id(old(self).base_selected_nodes(multi), s)
                || exists|i: int| 0 <= i < old(self).nodes@.len() && old(self).listed(ids@, i) && old(self).nodes@[i].id@ == s,
            ids_of(final(self).selected_nodes@) == with_ids(
                ids_of(old(self).base_selected_nodes(multi)),
                node_ids_where(old(self).nodes@, |n: Node| n.selectable && names(ids@, n.id@)),
            ),
            final(self).edges@ == old(self).base_edges(multi),
            final(self).selected_edges@ == old(self).base_selected_edges(multi),
            final(self).graph_change_only(old(self)),
    {
        self.start_selection(multi);
        let ghost base = *self;
        let n = self.nodes.len();
        let mut k: usize = 0;
        while k < n
            invariant
                self.wf(),
                k <= n == self.nodes@.len() == base.nodes@.len() == old(self).nodes@.len(),
                base.selection_base(old(self), multi),
                ids_of(self.selected_nodes@) == with_ids(
                    ids_of(base.selected_nodes@),
                    node_ids_where(old(self).nodes@.take(k as int), |n: Node| n.selectable && names(ids@, n.id@)),
                ),
                forall|i: int| 0 <= i < k ==> self.nodes@[i] == if old(self).listed(ids@, i) {
                    selected_node(base.nodes@[i])
                } else {
                    base.nodes@[i]
                },
                forall|i: int| k <= i < n ==> self.nodes@[i] == base.nodes@[i],
                self.selected_nodes@.take(base.selected_nodes@.len() as int) == base.selected_nodes@,
                self.selected_nodes@.len() >= base.selected_nodes@.len(),
                forall|s: Seq<char>| #![trigger has_id(self.selected_nodes@, s)] has_id(self.selected_nodes@, s) <==> has_id(base.selected_nodes@, s)
                    || exists|i: int| 0 <= i < k && old(self).listed(ids@, i) && old(self).nodes@[i].id@ == s,
                self.edges == base.edges,
                self.selected_edges == base.selected_edges,
                self.graph_change_only(old(self)),
            decreases n - k,
        {
            let hit = self.nodes[k].selectable && names_exec(ids, &self.nodes[k].id);
            proof {
                if !multi {
                    assert(base.nodes@[k as int] == unselected_node(old(self).nodes@[k as int]));
                }
                assert(hit == old(self).listed(ids@, k as int));
            }
            if !hit {
                assert forall|s: Seq<char>| #![trigger has_id(self.selected_nodes@, s)] has_id(self.selected_nodes@, s) <==> has_id(base.selected_nodes@, s)
                    || exists|i: int| 0 <= i < k + 1 && old(self).listed(ids@, i) && old(self).nodes@[i].id@ == s by {
                    if has_id(self.selected_nodes@, s) && !has_id(base.selected_nodes@, s) {
                        let i = choose|i: int| 0 <= i < k && old(self).listed(ids@, i) && old(self).nodes@[i].id@ == s;
                        assert(0 <= i < k + 1 && old(self).listed(ids@, i) && old(self).nodes@[i].id@ == s);
                    }
                    if exists|i: int| 0 <= i < k + 1 && old(self).listed(ids@, i) && old(self).nodes@[i].id@ == s {
                        let i = choose|i: int| 0 <= i < k + 1 && old(self).listed(ids@, i) && old(self).nodes@[i].id@ == s;
                        assert(i < k);
                    }
                }
            }
            proof {
                lemma_node_ids_where_step(old(self).nodes@, |n: Node| n.selectable && names(ids@, n.id@), k as int);
            }
            if hit {
                let ghost before = self.selected_nodes@;
                self.mark_node(k);
                proof {
                    lemma_added_ids(before, self.selected_nodes@, old(self).nodes@[k as int].id@);
                    lemma_with_ids_push(ids_of(base.selected_nodes@),
                        node_ids_where(old(self).nodes@.take(k as int), |n: Node| n.selectable && names(ids@, n.id@)), old(self).nodes@[k as int].id@);
                    assert(self.selected_nodes@.take(base.selected_nodes@.len() as int) =~= base.selected_nodes@) by {
                        if !has_id(before, base.nodes@[k as int].id@) {
                            assert(self.selected_nodes@.take(base.selected_nodes@.len() as int) =~= before.take(base.selected_nodes@.len() as int));
                        }
                    }
                    assert forall|s: Seq<char>| #![trigger has_id(self.selected_nodes@, s)] has_id(self.selected_nodes@, s) <==> has_id(base.selected_nodes@, s)
                        || exists|i: int| 0 <= i < k + 1 && old(self).listed(ids@, i) && old(self).nodes@[i].id@ == s by {
                        if has_id(before, s) && !has_id(base.selected_nodes@, s) {
                            let i = choose|i: int| 0 <= i < k && old(self).listed(ids@, i) && old(self).nodes@[i].id@ == s;
                            assert(0 <= i < k + 1 && old(self).listed(ids@, i) && old(self).nodes@[i].id@ == s);
                        }
                        if exists|i: int| 0 <= i < k + 1 && old(self).listed(ids@, i) && old(self).nodes@[i].id@ == s {
                            let i = choose|i: int| 0 <= i < k + 1 && old(self).listed(ids@, i) && old(self).nodes@[i].id@ == s;
                            if i == k {
                                if has_id(before, s) {
                                    let j = choose|j: int| 0 <= j < before.len() && before[j]@ == s;
                                    assert(self.selected_nodes@[j]@ == s);
                                } else {
                                    assert(self.selected_nodes@[self.selected_nodes@.len() - 1]@ == s);
                                }
                            }
                        }
                        if !has_id(before, base.nodes@[k as int].id@) {
                            if has_id(self.selected_nodes@, s) {
                                let j = choose|j: int| 0 <= j < self.selected_nodes@.len() && self.selected_nodes@[j]@ == s;
                                if j < before.len() {
                                    assert(before[j]@ == s);
                                }
                            }
                            if has_id(before, s) {
                                let j = choose|j: int| 0 <= j < before.len() && before[j]@ == s;
                                assert(self.selected_nodes@[j]@ == s);
                            }
                        }
                    }
                }
            }
            k += 1;
        }
        proof {
            assert(old(self).nodes@.take(n as int) =~= old(self).nodes@);
        }
    }
}


impl FlowState {
    /// The node `id`, to change in place.
    pub fn get_node_mut(&mut self, id: &str) -> (r: Option<&mut Node>)
        ensures
            r.is_none() <==> forall|i: int| 0 <= i < old(self).nodes@.len() ==> old(self).nodes@[i].id@ != id@,
            r.is_none() ==> *final(self) == *old(self),
            r.is_some() ==> exists|i: int| first_node(old(self).nodes@, id@, i)
                && *r.unwrap() == old(self).nodes@[i]
                && final(self).nodes@ == old(self).nodes@.update(i, *final(r.unwrap())),
    {
        let key = id.to_owned();
        match self.node_index(&key) {
            Some(i) => Some(&mut self.nodes[i]),
            None => None,
        }
    }

    /// The first edge `id`, to change in place.
    pub fn get_edge_mut(&mut self, id: &str) -> (r: Option<&mut Edge>)
        ensures
            r.is_none() <==> forall|i: int| 0 <= i < old(self).edges@.len() ==> old(self).edges@[i].id@ != id@,
            r.is_none() ==> *final(self) == *old(self),
            r.is_some() ==> exists|i: int| first_edge(old(self).edges@, id@, i)
                && *r.unwrap() == old(self).edges@[i]
                && final(self).edges@ == old(self).edges@.update(i, *final(r.unwrap())),
    {
        let key = id.to_owned();
        match self.edge_index(&key) {
            Some(i) => Some(&mut self.edges[i]),
            None => None,
        }
    }
}

} // verus!
