use vstd::prelude::*;

use crate::components::{EdgeMarker, NodeId};
use crate::consts::SEARCH_THRESHOLD;
use std::collections::VecDeque;

verus! {

/// Whether the allocated path is broken and must be repaired.
#[derive(Clone, Copy, Debug, PartialEq, Eq, Structural, PartialOrd, Ord)]
pub struct PathRepairRequired(pub bool);

impl Default for PathRepairRequired {
    fn default() -> (r: Self)
        ensures
            r.0 == false,
    {
        PathRepairRequired(false)
    }
}

impl PathRepairRequired {
    /// Marks the path as needing repair.
    pub fn request_path_repair(&mut self)
        ensures
            final(self).0 == true,
    {
        self.0 = true;
    }

    /// Marks the path as sound.
    pub fn set_unrequired(&mut self)
        ensures
            final(self).0 == false,
    {
        self.0 = false;
    }
}

/// The node from which paths are grown: the class's start node, once known.
pub struct RootNode(pub Option<NodeId>);

impl RootNode {
    /// Whether the root is known.
    pub fn is_set(&self) -> (set: bool)
        ensures
            set == self.0.is_some(),
    {
        self.0.is_some()
    }
}

/// The nodes the user clicked, oldest first.
pub struct MouseSelecetedNodeHistory(pub VecDeque<NodeId>);

/// Where the character was last saved.
pub struct LastSaveLocation(pub String);

/// Whether the side panels are shown.
#[derive(Clone, Copy, Debug, PartialEq, Eq, Structural)]
pub struct ToggleUi(pub bool);

impl ToggleUi {
    /// Shows the panels when hidden and hides them when shown.
    pub fn flip(&mut self)
        ensures
            final(self).0 == !old(self).0,
    {
        self.0 = !self.0;
    }
}

/// The number of bytes of the UTF-8 encoding of a text, as `str::len` reports it.
pub open spec fn byte_len(s: Seq<char>) -> usize {
    vstd::utf8::encode_utf8(s).len() as usize
}

/// The search box: what has been typed and whether it is shown.
pub struct SearchState {
    pub search_query: String,
    pub open: bool,
}

impl SearchState {
    /// Whether the query is long enough (in bytes) for a search to run.
    pub fn should_search(&self) -> (go: bool)
        ensures
            go == (byte_len(self.search_query@) >= SEARCH_THRESHOLD),
    {
        self.search_query.as_str().len() >= SEARCH_THRESHOLD
    }

    /// Whether the search box is shown.
    pub fn is_open(&self) -> (open: bool)
        ensures
            open == self.open,
    {
        self.open
    }

    /// Whether the search box is hidden.
    pub fn is_closed(&self) -> (closed: bool)
        ensures
            closed == !self.open,
    {
        !self.open
    }
}

/// Whether the optimiser can take a request.
#[derive(Clone, Copy, Debug, PartialEq, Eq, Structural)]
pub enum JobStatus {
    Available,
    Busy,
}

/// The optimiser: its status and the alternative paths it last found.
pub struct Optimiser {
    pub results: Vec<Vec<NodeId>>,
    pub status: JobStatus,
}

impl Optimiser {
    /// Whether the optimiser can take a request.
    pub fn is_available(&self) -> (available: bool)
        ensures
            available == (self.status == JobStatus::Available),
    {
        match self.status {
            JobStatus::Available => true,
            JobStatus::Busy => false,
        }
    }

    /// Marks the optimiser as working.
    pub fn set_busy(&mut self)
        ensures
            final(self).status == JobStatus::Busy,
            final(self).results@ == old(self).results@,
    {
        self.status = JobStatus::Busy;
    }

    /// Marks the optimiser as free.
    pub fn set_available(&mut self)
        ensures
            final(self).status == JobStatus::Available,
            final(self).results@ == old(self).results@,
    {
        self.status = JobStatus::Available;
    }
}

/// Whether a sequence of node identifiers is in ascending order.
pub open spec fn is_ascending(s: Seq<u32>) -> bool {
    forall|i: int, j: int| 0 <= i < j < s.len() ==> s[i] <= s[j]
}

/// What `VirtualPath::contains_node` answers: `node` occurs at a position
/// before which every entry is smaller than `node` (the scan stops at the first
/// entry that has gone past it).
pub open spec fn scan_finds_node(nodes: Seq<NodeId>, node: NodeId) -> bool {
    exists|k: int|
        #![trigger nodes[k]]
        0 <= k < nodes.len() && nodes[k] == node && (forall|j: int| 0 <= j < k ==> nodes[j] < node)
}

/// The ends of an edge with the smaller identifier first.
pub open spec fn normalised(a: NodeId, b: NodeId) -> (NodeId, NodeId) {
    if a < b {
        (a, b)
    } else {
        (b, a)
    }
}

/// Whether the edge from `n1` to `n2` is among `edges`.
pub open spec fn has_edge(edges: Seq<EdgeMarker>, n1: NodeId, n2: NodeId) -> bool {
    exists|k: int| #![trigger edges[k]] 0 <= k < edges.len() && edges[k].0 == n1 && edges[k].1 == n2
}

/// Whether edge `a` comes no later than edge `b`: by start, then by end.
pub open spec fn edge_le(a: EdgeMarker, b: EdgeMarker) -> bool {
    a.0 < b.0 || (a.0 == b.0 && a.1 <= b.1)
}

/// Whether edges are in ascending order of (start, end).
pub open spec fn edges_ascending(s: Seq<EdgeMarker>) -> bool {
    forall|i: int, j: int| 0 <= i < j < s.len() ==> edge_le(s[i], s[j])
}

/// The previewed path from the allocation to the hovered node.
pub struct VirtualPath {
    pub nodes: Vec<NodeId>,
    pub edges: Vec<EdgeMarker>,
}

impl Default for VirtualPath {
    fn default() -> (vp: Self)
        ensures
            vp.nodes@.len() == 0,
            vp.edges@.len() == 0,
    {
        VirtualPath { nodes: Vec::new(), edges: Vec::new() }
    }
}

impl VirtualPath {
    /// Empties the path.
    pub fn clear(&mut self)
        ensures
            final(self).nodes@.len() == 0,
            final(self).edges@.len() == 0,
    {
        *self = Self::default();
    }

    /// Scans the nodes, stopping at the first one that has gone past `node`;
    /// on nodes kept in ascending order (see `sort`) this is membership.
    pub fn contains_node(&self, node: NodeId) -> (found: bool)
        ensures
            found == scan_finds_node(self.nodes@, node),
    {
        let mut i: usize = 0;
        while i < self.nodes.len()
            invariant
                i <= self.nodes@.len(),
                forall|j: int| 0 <= j < i ==> self.nodes@[j] < node,
            decreases self.nodes@.len() - i,
        {
            let n = self.nodes[i];
            if n > node {
                proof {
                    assert forall|k: int|
                        0 <= k < self.nodes@.len() && self.nodes@[k] == node implies !(forall|
                        j: int,
                    | 0 <= j < k ==> self.nodes@[j] < node) by {
                        if k > i {
                            assert(self.nodes@[i as int] >= node);
                        }
                    }
                }
                return false;
            }
            if n == node {
                assert(self.nodes@[i as int] == node);
                return true;
            }
            i = i + 1;
        }
        false
    }

    /// Whether the path holds `edge`, looked up with its smaller end first.
    pub fn contains_edge(&self, edge: &EdgeMarker) -> (found: bool)
        ensures
            found == has_edge(self.edges@, normalised(edge.0, edge.1).0, normalised(edge.0, edge.1).1),
    {
        let (n1, n2) = if edge.0 < edge.1 {
            (edge.0, edge.1)
        } else {
            (edge.1, edge.0)
        };
        let mut i: usize = 0;
        while i < self.edges.len()
            invariant
                i <= self.edges@.len(),
                (n1, n2) == normalised(edge.0, edge.1),
                forall|j: int| 0 <= j < i ==> !(self.edges@[j].0 == n1 && self.edges@[j].1 == n2),
            decreases self.edges@.len() - i,
        {
            let EdgeMarker(s, e) = self.edges[i];
            if s == n1 && e == n2 {
                assert(self.edges@[i as int].0 == n1);
                return true;
            }
            i = i + 1;
        }
        false
    }

    /// Puts the nodes in ascending order, so that `contains_node` is fast and exact, and
    /// the edges in ascending order of (start, end).
    pub fn sort(&mut self)
        ensures
            is_ascending(final(self).nodes@),
            final(self).nodes@.to_multiset() == old(self).nodes@.to_multiset(),
            edges_ascending(final(self).edges@),
            final(self).edges@.to_multiset() == old(self).edges@.to_multiset(),
    {
        let sorted = sort_ascending(&self.nodes);
        self.nodes = sorted;
        let sorted_edges = sort_edges(&self.edges);
        self.edges = sorted_edges;
    }
}

proof fn lemma_insert_to_multiset<A>(s: Seq<A>, pos: int, x: A)
    requires
        0 <= pos <= s.len(),
    ensures
        s.insert(pos, x).to_multiset() == s.to_multiset().insert(x),
{
    let t = s.insert(pos, x);
    s.insert_ensures(pos, x);
    assert(t.remove(pos) =~= s);
    t.to_multiset_ensures();
    s.to_multiset_ensures();
    assert(t.contains(x)) by {
        assert(t[pos] == x);
    }
    assert(t.to_multiset() =~= s.to_multiset().insert(x));
}

/// Returns the identifiers of `ids` in ascending order (insertion sort).
fn sort_ascending(ids: &Vec<u32>) -> (sorted: Vec<u32>)
    ensures
        is_ascending(sorted@),
        sorted@.to_multiset() == ids@.to_multiset(),
{
    let mut sorted: Vec<u32> = Vec::new();
    let mut i: usize = 0;
    assert(sorted@ =~= ids@.subrange(0, 0));
    while i < ids.len()
        invariant
            i <= ids@.len(),
            is_ascending(sorted@),
            sorted@.to_multiset() == ids@.subrange(0, i as int).to_multiset(),
        decreases ids@.len() - i,
    {
        let x = ids[i];
        let mut j: usize = 0;
        while j < sorted.len() && sorted[j] <= x
            invariant
                j <= sorted@.len(),
                forall|k: int| 0 <= k < j ==> sorted@[k] <= x,
            decreases sorted@.len() - j,
        {
            j = j + 1;
        }
        let ghost before = sorted@;
        sorted.insert(j, x);
        proof {
            before.insert_ensures(j as int, x);
            assert(sorted@ == before.insert(j as int, x));
            assert forall|a: int, b: int| 0 <= a < b < sorted@.len() implies sorted@[a] <= sorted@[b] by {
                if b < j {
                } else if b == j {
                } else if a < j {
                    assert(sorted@[b] == before[b - 1]);
                    if j < before.len() {
                        assert(before[j as int] > x);
                        assert(before[j as int] <= before[b - 1]);
                    }
                } else if a == j {
                    assert(sorted@[b] == before[b - 1]);
                    assert(before[j as int] > x);
                } else {
                    assert(sorted@[a] == before[a - 1]);
                    assert(sorted@[b] == before[b - 1]);
                }
            }
            lemma_insert_to_multiset(before, j as int, x);
            let pre = ids@.subrange(0, i as int);
            assert(ids@.subrange(0, i + 1) =~= pre.push(x));
            pre.to_multiset_ensures();
        }
        i = i + 1;
    }
    assert(ids@.subrange(0, ids@.len() as int) =~= ids@);
    sorted
}

proof fn lemma_insert_keeps_edges_ascending(before: Seq<EdgeMarker>, j: int, x: EdgeMarker)
    requires
        edges_ascending(before),
        0 <= j <= before.len(),
        forall|k: int| 0 <= k < j ==> edge_le(#[trigger] before[k], x),
        j < before.len() ==> !edge_le(before[j], x),
    ensures
        edges_ascending(before.insert(j, x)),
{
    let t = before.insert(j, x);
    before.insert_ensures(j, x);
    assert forall|a: int, b: int| 0 <= a < b < t.len() implies edge_le(t[a], t[b]) by {
        if b < j {
            assert(t[a] == before[a] && t[b] == before[b]);
        } else if b == j {
            assert(t[a] == before[a]);
            assert(edge_le(before[a], x));
        } else if a < j {
            assert(t[a] == before[a]);
            assert(t[b] == before[b - 1]);
            assert(edge_le(before[a], before[b - 1]));
        } else if a == j {
            assert(t[b] == before[b - 1]);
            if b - 1 > j {
                assert(edge_le(before[j], before[b - 1]));
            }
        } else {
            assert(t[a] == before[a - 1]);
            assert(t[b] == before[b - 1]);
        }
    }
}

/// Returns the edges of `edges` in ascending order of (start, end) (insertion sort).
fn sort_edges(edges: &Vec<EdgeMarker>) -> (sorted: Vec<EdgeMarker>)
    ensures
        edges_ascending(sorted@),
        sorted@.to_multiset() == edges@.to_multiset(),
{
    let mut sorted: Vec<EdgeMarker> = Vec::new();
    let mut i: usize = 0;
    assert(sorted@ =~= edges@.subrange(0, 0));
    while i < edges.len()
        invariant
            i <= edges@.len(),
            edges_ascending(sorted@),
            sorted@.to_multiset() == edges@.subrange(0, i as int).to_multiset(),
        decreases edges@.len() - i,
    {
        let x = edges[i];
        let mut j: usize = 0;
        while j < sorted.len() && (sorted[j].0 < x.0 || (sorted[j].0 == x.0 && sorted[j].1 <= x.1))
            invariant
                j <= sorted@.len(),
                forall|k: int| 0 <= k < j ==> edge_le(#[trigger] sorted@[k], x),
            decreases sorted@.len() - j,
        {
            j = j + 1;
        }
        let ghost before = sorted@;
        sorted.insert(j, x);
        proof {
            lemma_insert_keeps_edges_ascending(before, j as int, x);
            lemma_insert_to_multiset(before, j as int, x);
            let pre = edges@.subrange(0, i as int);
            assert(edges@.subrange(0, i + 1) =~= pre.push(x));
            pre.to_multiset_ensures();
        }
        i = i + 1;
    }
    assert(edges@.subrange(0, edges@.len() as int) =~= edges@);
    sorted
}

/// Law: on nodes kept in ascending order, the scan of `contains_node` answers
/// exactly whether the node is in the path.
pub proof fn sorted_scan_is_membership(nodes: Seq<NodeId>, node: NodeId)
    requires
        is_ascending(nodes),
    ensures
        scan_finds_node(nodes, node) == nodes.contains(node),
{
    if nodes.contains(node) {
        let k0 = choose|k: int| 0 <= k < nodes.len() && nodes[k] == node;
        let k = lemma_first_occurrence(nodes, node, k0);
        assert forall|j: int| 0 <= j < k implies nodes[j] < node by {
            assert(nodes[j] <= nodes[k]);
            assert(nodes[j] != node);
        }
        assert(nodes[k] == node);
    }
}

proof fn lemma_first_occurrence(nodes: Seq<NodeId>, node: NodeId, k: int) -> (first: int)
    requires
        0 <= k < nodes.len(),
        nodes[k] == node,
    ensures
        0 <= first <= k,
        nodes[first] == node,
        forall|j: int| 0 <= j < first ==> nodes[j] != node,
    decreases k,
{
    if exists|j: int| 0 <= j < k && nodes[j] == node {
        let j = choose|j: int| 0 <= j < k && nodes[j] == node;
        lemma_first_occurrence(nodes, node, j)
    } else {
        k
    }
}

/// Law: sorting keeps the same edges, so `contains_edge` answers the same after `sort`
/// as before.
pub proof fn sort_keeps_the_edges(before: Seq<EdgeMarker>, after: Seq<EdgeMarker>, n1: NodeId, n2: NodeId)
    requires
        after.to_multiset() == before.to_multiset(),
    ensures
        has_edge(after, n1, n2) == has_edge(before, n1, n2),
{
    after.to_multiset_ensures();
    before.to_multiset_ensures();
    if has_edge(after, n1, n2) {
        let k = choose|k: int| 0 <= k < after.len() && after[k].0 == n1 && after[k].1 == n2;
        assert(after.contains(after[k]));
        assert(after.contains(after[k]) == (after.to_multiset().count(after[k]) > 0));
        assert(before.contains(after[k]) == (before.to_multiset().count(after[k]) > 0));
        let m = choose|m: int| 0 <= m < before.len() && before[m] == after[k];
        assert(before[m].0 == n1);
    }
    if has_edge(before, n1, n2) {
        let k = choose|k: int| 0 <= k < before.len() && before[k].0 == n1 && before[k].1 == n2;
        assert(before.contains(before[k]));
        assert(after.contains(before[k]) == (after.to_multiset().count(before[k]) > 0));
        assert(before.contains(before[k]) == (before.to_multiset().count(before[k]) > 0));
        let m = choose|m: int| 0 <= m < after.len() && after[m] == before[k];
        assert(after[m].0 == n1);
    }
}

/// Law: sorting keeps the same nodes, so after `sort` the scan of `contains_node`
/// answers membership in the nodes as they were before.
pub proof fn sort_then_scan_is_membership(before: Seq<NodeId>, after: Seq<NodeId>, node: NodeId)
    requires
        is_ascending(after),
        after.to_multiset() == before.to_multiset(),
    ensures
        scan_finds_node(after, node) == before.contains(node),
{
    sorted_scan_is_membership(after, node);
    after.to_multiset_ensures();
    before.to_multiset_ensures();
    assert(after.contains(node) == (after.to_multiset().count(node) > 0));
    assert(before.contains(node) == (before.to_multiset().count(node) > 0));
}

} // verus!
