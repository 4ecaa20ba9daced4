use vstd::prelude::*;

use std::collections::HashSet;

verus! {

broadcast use vstd::std_specs::hash::group_hash_axioms;

/// A node of the tree as the visualiser sees it: its identifier and whether it is allocated.
#[derive(Clone, Copy, Debug, PartialEq, Eq, Structural)]
pub struct TreeNode {
    pub node_id: usize,
    pub active: bool,
}

/// Whether no two nodes share an identifier.
pub open spec fn distinct_ids(nodes: Seq<TreeNode>) -> bool {
    forall|a: int, b: int| 0 <= a < b < nodes.len() ==> nodes[a].node_id != nodes[b].node_id
}

/// The nodes of the tree, each identifier once, in a fixed order.
pub struct TreeNodes {
    nodes: Vec<TreeNode>,
}

/// Whether node `id` is in `nodes` and allocated.
pub open spec fn is_active_in(nodes: Seq<TreeNode>, id: usize) -> bool {
    exists|k: int| 0 <= k < nodes.len() && #[trigger] nodes[k].node_id == id && nodes[k].active
}

/// Whether node `id` is in `nodes`.
pub open spec fn has_node(nodes: Seq<TreeNode>, id: usize) -> bool {
    exists|k: int| 0 <= k < nodes.len() && #[trigger] nodes[k].node_id == id
}

/// The nodes of `nodes` in order, each kept only when no earlier node has its identifier.
pub open spec fn first_of_each(nodes: Seq<TreeNode>) -> Seq<TreeNode>
    decreases nodes.len(),
{
    if nodes.len() == 0 {
        Seq::empty()
    } else {
        let rest = first_of_each(nodes.drop_last());
        if has_node(rest, nodes.last().node_id) {
            rest
        } else {
            rest.push(nodes.last())
        }
    }
}

impl TreeNodes {
    #[verifier::type_invariant]
    spec fn wf(self) -> bool {
        distinct_ids(self.nodes@)
    }

    /// The nodes, in order.
    pub closed spec fn seq(self) -> Seq<TreeNode> {
        self.nodes@
    }

    /// The nodes of `nodes`, in order; a node whose identifier came before is left out.
    pub fn from_nodes(nodes: &Vec<TreeNode>) -> (tree: TreeNodes)
        ensures
            tree.seq() == first_of_each(nodes@),
            distinct_ids(tree.seq()),
            forall|id: usize| has_node(tree.seq(), id) == has_node(nodes@, id),
            forall|k: int| 0 <= k < tree.seq().len() ==> nodes@.contains(#[trigger] tree.seq()[k]),
    {
        let mut kept: Vec<TreeNode> = Vec::new();
        let mut i: usize = 0;
        while i < nodes.len()
            invariant
                i <= nodes@.len(),
                kept@ == first_of_each(nodes@.subrange(0, i as int)),
                distinct_ids(kept@),
                forall|id: usize| has_node(kept@, id) == has_node(nodes@.subrange(0, i as int), id),
                forall|k: int| 0 <= k < kept@.len() ==> nodes@.contains(#[trigger] kept@[k]),
            decreases nodes@.len() - i,
        {
            let n = nodes[i];
            let pos = position_in(&kept, n.node_id);
            let ghost before = kept@;
            if pos.is_none() {
                kept.push(n);
                proof {
                    assert forall|a: int, b: int| 0 <= a < b < kept@.len() implies kept@[a].node_id != kept@[b].node_id by {
                        if b == before.len() {
                            assert(before[a].node_id == kept@[a].node_id);
                        }
                    }
                    assert(kept@[before.len() as int] == n);
                }
            }
            proof {
                let pre = nodes@.subrange(0, i as int);
                let next = nodes@.subrange(0, i + 1);
                assert(next[i as int] == n);
                assert(next.drop_last() == pre);
                assert(next.last() == n);
                assert(pos is None == !has_node(before, n.node_id));
                assert forall|id: usize| has_node(kept@, id) == has_node(next, id) by {
                    if has_node(pre, id) {
                        let k = choose|k: int| 0 <= k < pre.len() && #[trigger] pre[k].node_id == id;
                        assert(next[k] == pre[k]);
                    }
                    if has_node(next, id) {
                        let k = choose|k: int| 0 <= k < next.len() && #[trigger] next[k].node_id == id;
                        if k < i {
                            assert(pre[k] == next[k]);
                        }
                    }
                    if has_node(before, id) {
                        let k = choose|k: int| 0 <= k < before.len() && #[trigger] before[k].node_id == id;
                        assert(kept@[k] == before[k]);
                    }
                    if pos.is_none() && id == n.node_id {
                        assert(kept@[before.len() as int].node_id == id);
                    }
                    if has_node(kept@, id) && !has_node(before, id) {
                        let k = choose|k: int| 0 <= k < kept@.len() && #[trigger] kept@[k].node_id == id;
                        if k < before.len() {
                            assert(before[k] == kept@[k]);
                        }
                    }
                }
                assert forall|k: int| 0 <= k < kept@.len() implies nodes@.contains(#[trigger] kept@[k]) by {
                    if k < before.len() {
                        assert(before[k] == kept@[k]);
                    } else {
                        assert(nodes@[i as int] == n);
                    }
                }
            }
            i = i + 1;
        }
        assert(nodes@.subrange(0, nodes@.len() as int) == nodes@);
        TreeNodes { nodes: kept }
    }

    /// The position of node `id`, if it is in the tree.
    pub fn find(&self, id: usize) -> (pos: Option<usize>)
        ensures
            pos matches Some(k) ==> k < self.seq().len() && self.seq()[k as int].node_id == id,
            pos is None ==> !has_node(self.seq(), id),
    {
        position_in(&self.nodes, id)
    }

    /// The node at position `k`.
    pub fn get(&self, k: usize) -> (node: TreeNode)
        requires
            k < self.seq().len(),
        ensures
            node == self.seq()[k as int],
    {
        self.nodes[k]
    }

    /// The number of nodes.
    pub fn len(&self) -> (n: usize)
        ensures
            n == self.seq().len(),
    {
        self.nodes.len()
    }

    /// Sets whether the node at position `k` is allocated.
    pub fn set_active(&mut self, k: usize, active: bool)
        requires
            k < old(self).seq().len(),
        ensures
            final(self).seq() == old(self).seq().update(k as int, TreeNode { node_id: old(self).seq()[k as int].node_id, active }),
    {
        proof {
            use_type_invariant(&*self);
        }
        let mut nodes = self.nodes.clone();
        assert(nodes@ =~= self.nodes@);
        let id = nodes[k].node_id;
        nodes.set(k, TreeNode { node_id: id, active });
        proof {
            assert forall|a: int, b: int| 0 <= a < b < nodes@.len() implies nodes@[a].node_id != nodes@[b].node_id by {
                assert(nodes@[a].node_id == self.nodes@[a].node_id);
                assert(nodes@[b].node_id == self.nodes@[b].node_id);
            }
        }
        self.nodes = nodes;
    }
}

fn position_in(nodes: &Vec<TreeNode>, id: usize) -> (pos: Option<usize>)
    ensures
        pos matches Some(k) ==> k < nodes@.len() && nodes@[k as int].node_id == id,
        pos is None ==> !has_node(nodes@, id),
{
    let mut i: usize = 0;
    while i < nodes.len()
        invariant
            i <= nodes@.len(),
            forall|k: int| 0 <= k < i ==> #[trigger] nodes@[k].node_id != id,
        decreases nodes@.len() - i,
    {
        if nodes[i].node_id == id {
            return Some(i);
        }
        i = i + 1;
    }
    None
}

/// A set of directed edges between nodes, each once.
pub struct EdgePairs {
    pairs: Vec<(usize, usize)>,
}

impl EdgePairs {
    #[verifier::type_invariant]
    spec fn wf(self) -> bool {
        self.pairs@.no_duplicates()
    }

    /// The edges, in the order they came in.
    pub closed spec fn seq(self) -> Seq<(usize, usize)> {
        self.pairs@
    }

    /// No edge.
    pub fn new() -> (e: EdgePairs)
        ensures
            e.seq().len() == 0,
    {
        EdgePairs { pairs: Vec::new() }
    }

    /// Whether `edge` is in the set.
    pub fn contains(&self, edge: (usize, usize)) -> (found: bool)
        ensures
            found == self.seq().contains(edge),
    {
        let mut i: usize = 0;
        while i < self.pairs.len()
            invariant
                i <= self.pairs@.len(),
                forall|k: int| 0 <= k < i ==> self.pairs@[k] != edge,
            decreases self.pairs@.len() - i,
        {
            if self.pairs[i].0 == edge.0 && self.pairs[i].1 == edge.1 {
                assert(self.pairs@[i as int] == edge);
                return true;
            }
            i = i + 1;
        }
        false
    }

    /// Adds `edge`.
    pub fn insert(&mut self, edge: (usize, usize))
        ensures
            final(self).seq().to_set() == old(self).seq().to_set().insert(edge),
            final(self).seq().no_duplicates(),
    {
        proof {
            use_type_invariant(&*self);
        }
        if !self.contains(edge) {
            let ghost before = self.pairs@;
            let mut pairs: Vec<(usize, usize)> = Vec::new();
            std::mem::swap(&mut pairs, &mut self.pairs);
            pairs.push(edge);
            proof {
                before.lemma_push_to_set_commute(edge);
                assert forall|a: int, b: int| 0 <= a < b < pairs@.len() implies pairs@[a] != pairs@[b] by {
                    if b == before.len() {
                        assert(before[a] == pairs@[a]);
                    }
                }
            }
            self.pairs = pairs;
        } else {
            assert(self.pairs@.to_set() =~= self.pairs@.to_set().insert(edge));
        }
        proof {
            use_type_invariant(&*self);
        }
    }

    /// Removes every edge with node `id` at either end; the others stay, in order.
    pub fn remove_touching(&mut self, id: usize)
        ensures
            final(self).seq() == old(self).seq().filter(away_from(id)),
    {
        proof {
            use_type_invariant(&*self);
        }
        let ghost p = away_from(id);
        let ghost before = self.pairs@;
        let mut kept: Vec<(usize, usize)> = Vec::new();
        let mut i: usize = 0;
        while i < self.pairs.len()
            invariant
                i <= before.len(),
                self.pairs@ == before,
                before.no_duplicates(),
                p == away_from(id),
                kept@ == before.subrange(0, i as int).filter(p),
                kept@.no_duplicates(),
                forall|e: (usize, usize)| kept@.contains(e) ==> before.subrange(0, i as int).contains(e),
            decreases before.len() - i,
        {
            let e = self.pairs[i];
            let ghost pre = before.subrange(0, i as int);
            let ghost kept_before = kept@;
            proof {
                assert(before.subrange(0, i + 1) == pre.push(e));
                pre.lemma_filter_push(e, p);
            }
            if e.0 != id && e.1 != id {
                proof {
                    if kept@.contains(e) {
                        let j = choose|j: int| 0 <= j < pre.len() && pre[j] == e;
                        assert(before[j] == before[i as int]);
                    }
                }
                kept.push(e);
                proof {
                    assert forall|a: int, b: int| 0 <= a < b < kept@.len() implies kept@[a] != kept@[b] by {
                        if b == kept_before.len() {
                            assert(kept_before[a] == kept@[a]);
                            assert(kept_before.contains(kept@[a]));
                        }
                    }
                }
            }
            proof {
                assert forall|x: (usize, usize)| kept@.contains(x) implies before.subrange(0, i + 1).contains(x) by {
                    if kept_before.contains(x) {
                        let j = choose|j: int| 0 <= j < pre.len() && pre[j] == x;
                        assert(before.subrange(0, i + 1)[j] == x);
                    } else {
                        assert(before.subrange(0, i + 1)[i as int] == x);
                    }
                }
            }
            i = i + 1;
        }
        assert(before.subrange(0, before.len() as int) == before);
        self.pairs = kept;
    }

    /// Removes every edge.
    pub fn clear(&mut self)
        ensures
            final(self).seq().len() == 0,
    {
        self.pairs = Vec::new();
    }
}

/// The visualiser's state, without its camera: the nodes of the tree, the search box,
/// the start and target nodes, the highlighted path, the allocated edges and nodes, and
/// the allocation of the loaded character.
pub struct TreeVis {
    pub passive_nodes: TreeNodes,
    pub fuzzy_search_open: bool,
    pub search_query: String,
    pub search_results: Vec<usize>,
    pub start_node_id: usize,
    pub target_node_id: usize,
    pub highlighted_path: Vec<usize>,
    pub active_edges: EdgePairs,
    pub active_nodes: HashSet<usize>,
    pub requires_activation_check: bool,
    /// The nodes the loaded character has allocated; `None` when no character is loaded.
    pub character_nodes: Option<HashSet<usize>>,
}

/// Whether edge `e` has node `id` at either end.
pub open spec fn touches(e: (usize, usize), id: usize) -> bool {
    e.0 == id || e.1 == id
}

/// The test that keeps the edges with neither end at node `id`.
pub open spec fn away_from(id: usize) -> spec_fn((usize, usize)) -> bool {
    |e: (usize, usize)| !touches(e, id)
}

/// The path of `path` in which the node `id` is kept at most once: unchanged when `id` is
/// on it already, with `id` added at the end otherwise.
pub open spec fn with_node(path: Seq<usize>, id: usize) -> Seq<usize> {
    if path.contains(id) {
        path
    } else {
        path.push(id)
    }
}

impl TreeVis {
    /// A visualiser over `nodes` for the character whose allocation is `character_nodes`
    /// (`None`: no character loaded): search closed and empty, start and target 0, nothing
    /// highlighted or allocated, no check pending.
    pub fn new(nodes: TreeNodes, character_nodes: Option<HashSet<usize>>) -> (vis: TreeVis)
        ensures
            vis.passive_nodes.seq() == nodes.seq(),
            !vis.fuzzy_search_open,
            vis.search_query@.len() == 0,
            vis.search_results@.len() == 0,
            vis.start_node_id == 0,
            vis.target_node_id == 0,
            vis.highlighted_path@.len() == 0,
            vis.active_edges.seq().len() == 0,
            vis.active_nodes@ == Set::<usize>::empty(),
            !vis.requires_activation_check,
            vis.character_nodes == character_nodes,
    {
        TreeVis {
            passive_nodes: nodes,
            fuzzy_search_open: false,
            search_query: String::new(),
            search_results: Vec::new(),
            start_node_id: 0,
            target_node_id: 0,
            highlighted_path: Vec::new(),
            active_edges: EdgePairs::new(),
            active_nodes: HashSet::new(),
            requires_activation_check: false,
            character_nodes,
        }
    }

    /// Opens the fuzzy search; nothing else changes.
    pub fn enable_fuzzy_search(&mut self)
        ensures
            *final(self) == (TreeVis { fuzzy_search_open: true, ..*old(self) }),
    {
        self.fuzzy_search_open = true;
    }

    /// Closes the fuzzy search; nothing else changes.
    pub fn disable_fuzzy_search(&mut self)
        ensures
            *final(self) == (TreeVis { fuzzy_search_open: false, ..*old(self) }),
    {
        self.fuzzy_search_open = false;
    }

    /// Whether the fuzzy search is open.
    pub fn is_fuzzy_search_open(&self) -> (open: bool)
        ensures
            open == self.fuzzy_search_open,
    {
        self.fuzzy_search_open
    }

    /// Flips node `node_id` between allocated and not (when it is in the tree). A node
    /// that becomes allocated joins the highlighted path once; one that is unallocated
    /// leaves the highlighted path, the recorded allocated nodes and, with every edge that
    /// has it at an end, the allocated edges. In any case the paths are to be rechecked.
    pub fn click_node(&mut self, node_id: usize)
        ensures
            final(self).requires_activation_check,
            click_effect(
                old(self).passive_nodes.seq(),
                old(self).highlighted_path@,
                node_id,
                final(self).passive_nodes.seq(),
                final(self).highlighted_path@,
            ),
            is_active_in(old(self).passive_nodes.seq(), node_id) ==> final(self).active_nodes@ == old(
                self,
            ).active_nodes@.remove(node_id) && final(self).active_edges.seq() == old(
                self,
            ).active_edges.seq().filter(away_from(node_id)),
            !is_active_in(old(self).passive_nodes.seq(), node_id) ==> final(self).active_nodes@ == old(
                self,
            ).active_nodes@ && final(self).active_edges.seq() == old(self).active_edges.seq(),
            *final(self) == (TreeVis {
                passive_nodes: final(self).passive_nodes,
                highlighted_path: final(self).highlighted_path,
                active_nodes: final(self).active_nodes,
                active_edges: final(self).active_edges,
                requires_activation_check: true,
                ..*old(self)
            }),
    {
        proof {
            use_type_invariant(&self.passive_nodes);
        }
        match self.passive_nodes.find(node_id) {
            Some(k) => {
                proof {
                    let c = choose|c: int|
                        0 <= c < self.passive_nodes.seq().len() && #[trigger] self.passive_nodes.seq()[c].node_id == node_id;
                    assert(c == k as int);
                }
                proof {
                    lemma_active_at(self.passive_nodes.seq(), k as int, node_id);
                }
                let now = !self.passive_nodes.get(k).active;
                self.passive_nodes.set_active(k, now);
                if now {
                    if !usize_contains(&self.highlighted_path, node_id) {
                        self.highlighted_path.push(node_id);
                    }
                } else {
                    self.highlighted_path = retain_other(&self.highlighted_path, node_id);
                    self.active_nodes.remove(&node_id);
                    self.active_edges.remove_touching(node_id);
                }
            },
            None => {},
        }
        self.requires_activation_check = true;
    }

    /// Allocates the edges of `path`: each pair of neighbours, in both directions. Nothing
    /// but the allocated edges changes.
    pub fn update_active_edges(&mut self, path: &Vec<usize>)
        ensures
            final(self).active_edges.seq().to_set() == old(self).active_edges.seq().to_set().union(
                path_edges(path@),
            ),
            *final(self) == (TreeVis { active_edges: final(self).active_edges, ..*old(self) }),
    {
        if path.len() < 2 {
            assert(path_edges(path@) =~= Set::<(usize, usize)>::empty());
            assert(self.active_edges.seq().to_set().union(path_edges(path@)) =~= self.active_edges.seq().to_set());
            return;
        }
        proof {
            assert(path_edges(path@.subrange(0, 1)) =~= Set::<(usize, usize)>::empty());
            assert(self.active_edges.seq().to_set().union(path_edges(path@.subrange(0, 1)))
                =~= self.active_edges.seq().to_set());
        }
        let mut i: usize = 1;
        while i < path.len()
            invariant
                1 <= i <= path@.len(),
                *self == (TreeVis { active_edges: self.active_edges, ..*old(self) }),
                self.active_edges.seq().to_set() == old(self).active_edges.seq().to_set().union(
                    path_edges(path@.subrange(0, i as int)),
                ),
            decreases path@.len() - i,
        {
            let a = path[i - 1];
            let b = path[i];
            self.active_edges.insert((a, b));
            self.active_edges.insert((b, a));
            proof {
                let pre = path@.subrange(0, i as int);
                let next = path@.subrange(0, i + 1);
                assert forall|e: (usize, usize)| path_edges(next).contains(e) == (path_edges(pre).contains(e) || e == (a, b) || e == (b, a)) by {
                    if path_edges(next).contains(e) {
                        let k = choose|k: int| 0 <= k < next.len() - 1 && #[trigger] links(next, k, e);
                        if k < i - 1 {
                            assert(next[k] == pre[k] && next[k + 1] == pre[k + 1]);
                            assert(links(pre, k, e));
                        } else {
                            assert(next[k] == a && next[k + 1] == b);
                        }
                    }
                    if path_edges(pre).contains(e) {
                        let k = choose|k: int| 0 <= k < pre.len() - 1 && #[trigger] links(pre, k, e);
                        assert(next[k] == pre[k] && next[k + 1] == pre[k + 1]);
                        assert(links(next, k, e));
                    }
                    if e == (a, b) || e == (b, a) {
                        assert(next[i - 1] == a && next[i as int] == b);
                        assert(links(next, i - 1, e));
                    }
                }
                assert(self.active_edges.seq().to_set() =~= old(self).active_edges.seq().to_set().union(path_edges(next)));
            }
            i = i + 1;
        }
        assert(path@.subrange(0, path@.len() as int) == path@);
    }

    /// Unallocates every node and clears the highlighted path and the allocated edges.
    pub fn clear_active_nodes(&mut self)
        ensures
            final(self).passive_nodes.seq().len() == old(self).passive_nodes.seq().len(),
            forall|k: int|
                0 <= k < final(self).passive_nodes.seq().len() ==> #[trigger] final(self).passive_nodes.seq()[k]
                    == (TreeNode { node_id: old(self).passive_nodes.seq()[k].node_id, active: false }),
            final(self).highlighted_path@.len() == 0,
            final(self).active_edges.seq().len() == 0,
            *final(self) == (TreeVis {
                passive_nodes: final(self).passive_nodes,
                highlighted_path: final(self).highlighted_path,
                active_edges: final(self).active_edges,
                ..*old(self)
            }),
    {
        let n = self.passive_nodes.len();
        let mut k: usize = 0;
        while k < n
            invariant
                k <= n,
                n == self.passive_nodes.seq().len(),
                n == old(self).passive_nodes.seq().len(),
                *self == (TreeVis { passive_nodes: self.passive_nodes, ..*old(self) }),
                forall|m: int|
                    0 <= m < n ==> #[trigger] self.passive_nodes.seq()[m].node_id == old(self).passive_nodes.seq()[m].node_id,
                forall|m: int| 0 <= m < k ==> !#[trigger] self.passive_nodes.seq()[m].active,
            decreases n - k,
        {
            self.passive_nodes.set_active(k, false);
            k = k + 1;
        }
        proof {
            assert forall|m: int| 0 <= m < n implies #[trigger] self.passive_nodes.seq()[m] == (TreeNode {
                node_id: old(self).passive_nodes.seq()[m].node_id,
                active: false,
            }) by {
                assert(self.passive_nodes.seq()[m].node_id == old(self).passive_nodes.seq()[m].node_id);
                assert(!self.passive_nodes.seq()[m].active);
            }
        }
        self.highlighted_path = Vec::new();
        self.active_edges.clear();
    }

    /// The allocated nodes, in the tree's order: the ends that paths are searched to.
    pub fn active_node_ids(&self) -> (ids: Vec<usize>)
        ensures
            ids@ == self.passive_nodes.seq().filter(|n: TreeNode| n.active).map_values(|n: TreeNode| n.node_id),
    {
        let ghost p = |n: TreeNode| n.active;
        let ghost f = |n: TreeNode| n.node_id;
        let mut ids: Vec<usize> = Vec::new();
        let mut k: usize = 0;
        while k < self.passive_nodes.len()
            invariant
                k <= self.passive_nodes.seq().len(),
                p == (|n: TreeNode| n.active),
                f == (|n: TreeNode| n.node_id),
                ids@ == self.passive_nodes.seq().subrange(0, k as int).filter(p).map_values(f),
            decreases self.passive_nodes.seq().len() - k,
        {
            let n = self.passive_nodes.get(k);
            let ghost pre = self.passive_nodes.seq().subrange(0, k as int);
            proof {
                assert(self.passive_nodes.seq().subrange(0, k + 1) == pre.push(n));
                pre.lemma_filter_push(n, p);
            }
            if n.active {
                ids.push(n.node_id);
                proof {
                    pre.filter(p).lemma_push_map_commute(f, n);
                }
            }
            k = k + 1;
        }
        assert(self.passive_nodes.seq().subrange(0, self.passive_nodes.seq().len() as int) == self.passive_nodes.seq());
        ids
    }

    /// Allocates, when `activate`, the nodes of a found shortest path (`found`: the path and
    /// the allocated node it reaches) that are in the tree and not yet allocated, and its
    /// edges, and gives the loaded character (if any) every node of the path that is in the
    /// tree; returns the path. `None` when no path was found.
    pub fn process_path_to_active_node(&mut self, found: Option<(Vec<usize>, usize)>, activate: bool) -> (path:
        Option<Vec<usize>>)
        ensures
            found is None ==> path is None && final(self).passive_nodes.seq() == old(self).passive_nodes.seq()
                && final(self).active_edges.seq() == old(self).active_edges.seq(),
            final(self).highlighted_path@ == old(self).highlighted_path@,
            final(self).target_node_id == old(self).target_node_id,
            final(self).start_node_id == old(self).start_node_id,
            found is Some ==> (path matches Some(p) && p@ == found_path(found)),
            !activate ==> *final(self) == *old(self),
            activate && found is Some ==> final(self).active_edges.seq().to_set() == old(self).active_edges.seq().to_set().union(
                path_edges(found_path(found)),
            ),
            activate && found is Some ==> final(self).passive_nodes.seq() == allocated_along(
                old(self).passive_nodes.seq(),
                found_path(found),
            ),
            activate && found is Some ==> final(self).active_nodes@ == recorded_after(
                old(self).active_nodes@,
                found_path(found),
                old(self).passive_nodes.seq(),
            ),
            !(activate && found is Some) ==> final(self).active_nodes@ == old(self).active_nodes@,
            activate && found is Some && old(self).character_nodes is Some ==> (final(self).character_nodes matches Some(
                c,
            ) && c@ == old(self).character_nodes.unwrap()@.union(
                tree_nodes_on(found_path(found), old(self).passive_nodes.seq()),
            )),
            !(activate && found is Some && old(self).character_nodes is Some) ==> final(self).character_nodes == old(
                self,
            ).character_nodes,
            *final(self) == (TreeVis {
                passive_nodes: final(self).passive_nodes,
                active_edges: final(self).active_edges,
                active_nodes: final(self).active_nodes,
                character_nodes: final(self).character_nodes,
                ..*old(self)
            }),
    {
        match found {
            None => None,
            Some((path, _reached)) => {
                if activate {
                    match self.character_nodes.take() {
                        Some(mut recorded) => {
                            record_path_nodes(&mut recorded, &path, &self.passive_nodes);
                            self.character_nodes = Some(recorded);
                        },
                        None => {},
                    }
                    self.activate_path_nodes(&path);
                    self.update_active_edges(&path);
                }
                Some(path)
            },
        }
    }

    /// The shortest path from a node to the allocated nodes. `candidates` holds, for
    /// each allocated node, the path the tree found from the node to it (empty when
    /// there is none) and that allocated node; the first of the shortest non-empty paths
    /// is returned with its allocated node, `None` when every path is empty.
    pub fn find_shortest_path_to_active_node(&self, candidates: &Vec<(Vec<usize>, usize)>) -> (found: Option<
        (Vec<usize>, usize),
    >)
        ensures
            found is None <==> forall|k: int| 0 <= k < candidates@.len() ==> #[trigger] candidates@[k].0@.len() == 0,
            found matches Some((p, id)) ==> exists|b: int|
                #[trigger] is_first_shortest_path(candidates@, b) && p@ == candidates@[b].0@ && id == candidates@[b].1,
    {
        let mut best: Option<usize> = None;
        let mut k: usize = 0;
        while k < candidates.len()
            invariant
                k <= candidates@.len(),
                best is None <==> forall|m: int| 0 <= m < k ==> #[trigger] candidates@[m].0@.len() == 0,
                best matches Some(b) ==> b < k && is_first_shortest_path(candidates@.subrange(0, k as int), b as int),
            decreases candidates@.len() - k,
        {
            let ghost prefix = candidates@.subrange(0, k as int);
            let ghost next = candidates@.subrange(0, k + 1);
            let len = candidates[k].0.len();
            if len > 0 {
                let better = match best {
                    None => true,
                    Some(b) => len < candidates[b].0.len(),
                };
                if better {
                    best = Some(k);
                }
            }
            proof {
                assert forall|m: int| 0 <= m < k implies next[m] == prefix[m] by {}
                assert(next[k as int] == candidates@[k as int]);
                if let Some(b) = best {
                    assert(is_first_shortest_path(next, b as int));
                }
            }
            k = k + 1;
        }
        proof {
            assert(candidates@.subrange(0, candidates@.len() as int) == candidates@);
        }
        match best {
            None => None,
            Some(b) => {
                let path = candidates[b].0.clone();
                assert(path@ =~= candidates@[b as int].0@);
                assert(is_first_shortest_path(candidates@, b as int));
                Some((path, candidates[b].1))
            },
        }
    }

    /// Previews the path to node `node_id` under the pointer: when the node is in the tree
    /// and not allocated, and a shortest path to the allocated nodes was found (`found`),
    /// that path becomes the highlighted path. Nothing is allocated.
    pub fn hover_node(&mut self, node_id: usize, found: Option<(Vec<usize>, usize)>)
        ensures
            has_node(old(self).passive_nodes.seq(), node_id) && !is_active_in(old(self).passive_nodes.seq(), node_id)
                && found is Some ==> final(self).highlighted_path@ == found_path(found),
            !(has_node(old(self).passive_nodes.seq(), node_id) && !is_active_in(old(self).passive_nodes.seq(), node_id)
                && found is Some) ==> final(self).highlighted_path@ == old(self).highlighted_path@,
            *final(self) == (TreeVis { highlighted_path: final(self).highlighted_path, ..*old(self) }),
    {
        proof {
            use_type_invariant(&self.passive_nodes);
        }
        match self.passive_nodes.find(node_id) {
            Some(k) => {
                proof {
                    lemma_active_at(self.passive_nodes.seq(), k as int, node_id);
                }
                if !self.passive_nodes.get(k).active {
                    match self.process_path_to_active_node(found, false) {
                        Some(path) => {
                            self.highlighted_path = path;
                        },
                        None => {},
                    }
                }
            },
            None => {},
        }
    }

    /// Selects node `node_id` as the target and allocates the shortest path found to it
    /// (`found`), and gives it to the loaded character, as `process_path_to_active_node`
    /// does with `activate` set.
    pub fn select_node(&mut self, node_id: usize, found: Option<(Vec<usize>, usize)>)
        ensures
            final(self).target_node_id == node_id,
            final(self).highlighted_path@ == old(self).highlighted_path@,
            found is None ==> final(self).passive_nodes.seq() == old(self).passive_nodes.seq()
                && final(self).active_edges.seq() == old(self).active_edges.seq(),
            found is Some ==> final(self).active_edges.seq().to_set() == old(self).active_edges.seq().to_set().union(
                path_edges(found_path(found)),
            ),
            found is Some ==> final(self).passive_nodes.seq() == allocated_along(
                old(self).passive_nodes.seq(),
                found_path(found),
            ),
            found is Some ==> final(self).active_nodes@ == recorded_after(
                old(self).active_nodes@,
                found_path(found),
                old(self).passive_nodes.seq(),
            ),
            found is None ==> final(self).active_nodes@ == old(self).active_nodes@,
            found is Some && old(self).character_nodes is Some ==> (final(self).character_nodes matches Some(c)
                && c@ == old(self).character_nodes.unwrap()@.union(
                tree_nodes_on(found_path(found), old(self).passive_nodes.seq()),
            )),
            !(found is Some && old(self).character_nodes is Some) ==> final(self).character_nodes == old(
                self,
            ).character_nodes,
            *final(self) == (TreeVis {
                passive_nodes: final(self).passive_nodes,
                active_edges: final(self).active_edges,
                active_nodes: final(self).active_nodes,
                character_nodes: final(self).character_nodes,
                target_node_id: node_id,
                ..*old(self)
            }),
    {
        self.target_node_id = node_id;
        let _ = self.process_path_to_active_node(found, true);
    }

    /// The selected target node.
    pub fn get_target_node(&self) -> (target: Option<usize>)
        ensures
            target == Some(self.target_node_id),
    {
        Some(self.target_node_id)
    }

    /// Unallocates every node but the start node, and clears the highlighted path and the
    /// allocated edges.
    pub fn clear_active_nodes_and_edges(&mut self)
        ensures
            final(self).passive_nodes.seq().len() == old(self).passive_nodes.seq().len(),
            forall|k: int|
                0 <= k < final(self).passive_nodes.seq().len() ==> #[trigger] final(self).passive_nodes.seq()[k]
                    == (TreeNode {
                    node_id: old(self).passive_nodes.seq()[k].node_id,
                    active: old(self).passive_nodes.seq()[k].active && old(self).passive_nodes.seq()[k].node_id
                        == old(self).start_node_id,
                }),
            final(self).highlighted_path@.len() == 0,
            final(self).active_edges.seq().len() == 0,
            *final(self) == (TreeVis {
                passive_nodes: final(self).passive_nodes,
                highlighted_path: final(self).highlighted_path,
                active_edges: final(self).active_edges,
                ..*old(self)
            }),
    {
        let n = self.passive_nodes.len();
        let mut k: usize = 0;
        while k < n
            invariant
                k <= n,
                n == self.passive_nodes.seq().len(),
                n == old(self).passive_nodes.seq().len(),
                *self == (TreeVis { passive_nodes: self.passive_nodes, ..*old(self) }),
                forall|m: int|
                    0 <= m < n ==> #[trigger] self.passive_nodes.seq()[m].node_id == old(self).passive_nodes.seq()[m].node_id,
                forall|m: int|
                    0 <= m < k ==> #[trigger] self.passive_nodes.seq()[m].active == (old(self).passive_nodes.seq()[m].active
                        && old(self).passive_nodes.seq()[m].node_id == old(self).start_node_id),
                forall|m: int|
                    k <= m < n ==> #[trigger] self.passive_nodes.seq()[m].active == old(self).passive_nodes.seq()[m].active,
            decreases n - k,
        {
            let node = self.passive_nodes.get(k);
            if node.node_id != self.start_node_id {
                self.passive_nodes.set_active(k, false);
            }
            k = k + 1;
        }
        proof {
            assert forall|m: int| 0 <= m < n implies #[trigger] self.passive_nodes.seq()[m] == (TreeNode {
                node_id: old(self).passive_nodes.seq()[m].node_id,
                active: old(self).passive_nodes.seq()[m].active && old(self).passive_nodes.seq()[m].node_id
                    == old(self).start_node_id,
            }) by {
                assert(self.passive_nodes.seq()[m].node_id == old(self).passive_nodes.seq()[m].node_id);
                assert(self.passive_nodes.seq()[m].active == (old(self).passive_nodes.seq()[m].active
                    && old(self).passive_nodes.seq()[m].node_id == old(self).start_node_id));
            }
        }
        self.highlighted_path = Vec::new();
        self.active_edges.clear();
    }

    /// A new search text typed in the side panel: it becomes the query; the results are
    /// `matches` (what the tree's fuzzy search gave for it) when it is not empty, and
    /// none when it is.
    pub fn update_search(&mut self, query: String, matches: Vec<usize>)
        ensures
            final(self).search_query@ == query@,
            query@.len() > 0 ==> final(self).search_results@ == matches@,
            query@.len() == 0 ==> final(self).search_results@.len() == 0,
            *final(self) == (TreeVis {
                search_query: final(self).search_query,
                search_results: final(self).search_results,
                ..*old(self)
            }),
    {
        let empty = query.unicode_len() == 0;
        self.search_query = query;
        if empty {
            self.search_results = Vec::new();
        } else {
            self.search_results = matches;
        }
    }

    /// The search results listed under the search box: none while the query is empty,
    /// else the results that are nodes of the tree, in order.
    pub fn shown_search_results(&self) -> (shown: Vec<usize>)
        ensures
            self.search_query@.len() == 0 ==> shown@.len() == 0,
            self.search_query@.len() > 0 ==> shown@ == self.search_results@.filter(
                |id: usize| has_node(self.passive_nodes.seq(), id),
            ),
    {
        let mut shown: Vec<usize> = Vec::new();
        if self.search_query.unicode_len() == 0 {
            return shown;
        }
        let ghost p = |id: usize| has_node(self.passive_nodes.seq(), id);
        let mut i: usize = 0;
        while i < self.search_results.len()
            invariant
                i <= self.search_results@.len(),
                p == (|id: usize| has_node(self.passive_nodes.seq(), id)),
                shown@ == self.search_results@.subrange(0, i as int).filter(p),
            decreases self.search_results@.len() - i,
        {
            let id = self.search_results[i];
            proof {
                assert(self.search_results@.subrange(0, i + 1) == self.search_results@.subrange(0, i as int).push(id));
                self.search_results@.subrange(0, i as int).lemma_filter_push(id, p);
            }
            if self.passive_nodes.find(id).is_some() {
                shown.push(id);
            }
            i = i + 1;
        }
        assert(self.search_results@.subrange(0, self.search_results@.len() as int) == self.search_results@);
        shown
    }

    /// A start node typed in the side panel: taken when it is a node of the tree.
    /// Returns whether it was taken.
    pub fn set_start_node(&mut self, id: usize) -> (taken: bool)
        ensures
            taken == has_node(old(self).passive_nodes.seq(), id),
            taken ==> final(self).start_node_id == id,
            !taken ==> final(self).start_node_id == old(self).start_node_id,
            *final(self) == (TreeVis { start_node_id: final(self).start_node_id, ..*old(self) }),
    {
        if self.passive_nodes.find(id).is_some() {
            self.start_node_id = id;
            true
        } else {
            false
        }
    }

    /// A target node typed in the side panel: taken when the tree found it within reach
    /// of the start node (`within_reach`, with the reach of `MAXIMUM_ACTIVATEABLE_NODES`
    /// steps). Returns whether it was taken.
    pub fn set_target_node(&mut self, id: usize, within_reach: bool) -> (taken: bool)
        ensures
            taken == within_reach,
            taken ==> final(self).target_node_id == id,
            !taken ==> final(self).target_node_id == old(self).target_node_id,
            *final(self) == (TreeVis { target_node_id: final(self).target_node_id, ..*old(self) }),
    {
        if within_reach {
            self.target_node_id = id;
        }
        within_reach
    }

    fn activate_path_nodes(&mut self, path: &Vec<usize>)
        ensures
            final(self).passive_nodes.seq() == allocated_along(old(self).passive_nodes.seq(), path@),
            *final(self) == (TreeVis {
                passive_nodes: final(self).passive_nodes,
                active_nodes: final(self).active_nodes,
                ..*old(self)
            }),
            final(self).active_nodes@ == recorded_after(old(self).active_nodes@, path@, old(self).passive_nodes.seq()),
    {
        let mut i: usize = 0;
        proof {
            use_type_invariant(&self.passive_nodes);
            assert(recorded_after(old(self).active_nodes@, path@.subrange(0, 0), old(self).passive_nodes.seq())
                =~= old(self).active_nodes@);
            assert(allocated_along(old(self).passive_nodes.seq(), path@.subrange(0, 0)) =~= old(
                self,
            ).passive_nodes.seq());
        }
        while i < path.len()
            invariant
                i <= path@.len(),
                distinct_ids(old(self).passive_nodes.seq()),
                self.passive_nodes.seq() == allocated_along(old(self).passive_nodes.seq(), path@.subrange(0, i as int)),
                self.active_nodes@ == recorded_after(
                    old(self).active_nodes@,
                    path@.subrange(0, i as int),
                    old(self).passive_nodes.seq(),
                ),
                *self == (TreeVis {
                    passive_nodes: self.passive_nodes,
                    active_nodes: self.active_nodes,
                    ..*old(self)
                }),
            decreases path@.len() - i,
        {
            let id = path[i];
            let ghost before = self.passive_nodes.seq();
            let ghost set_before = self.active_nodes@;
            let ghost inserted = false;
            let ghost pos: int = -1;
            proof {
                use_type_invariant(&self.passive_nodes);
            }
            match self.passive_nodes.find(id) {
                Some(k) => {
                    proof {
                        lemma_active_at(before, k as int, id);
                        pos = k as int;
                    }
                    if !self.passive_nodes.get(k).active {
                        self.active_nodes.insert(id);
                        proof {
                            inserted = true;
                        }
                        self.passive_nodes.set_active(k, true);
                    }
                },
                None => {},
            }
            proof {
                let after = self.passive_nodes.seq();
                let pre = path@.subrange(0, i as int);
                let next = path@.subrange(0, i + 1);
                let nodes0 = old(self).passive_nodes.seq();
                assert(next == pre.push(id));
                assert forall|x: usize| next.contains(x) == (pre.contains(x) || x == id) by {
                    if next.contains(x) {
                        let j = choose|j: int| 0 <= j < next.len() && next[j] == x;
                        if j < i {
                            assert(pre[j] == x);
                        }
                    }
                    if pre.contains(x) {
                        let j = choose|j: int| 0 <= j < pre.len() && pre[j] == x;
                        assert(next[j] == x);
                    }
                    assert(next[i as int] == id);
                }
                lemma_allocated_along_ids(nodes0, pre);
                lemma_allocated_along_ids(nodes0, next);
                assert(after =~= allocated_along(nodes0, next)) by {
                    assert forall|m: int| 0 <= m < after.len() implies after[m] == allocated_along(nodes0, next)[m] by {
                        if m == pos {
                        } else {
                            assert(nodes0[m].node_id == before[m].node_id);
                            if before[m].node_id == id {
                                assert(pos >= 0);
                                if m < pos {
                                    assert(before[m].node_id != before[pos].node_id);
                                } else {
                                    assert(before[pos].node_id != before[m].node_id);
                                }
                            }
                        }
                    }
                }
                allocating_a_path_allocates_its_nodes(nodes0, pre, id);
                assert(has_node(before, id) == has_node(nodes0, id)) by {
                    if has_node(nodes0, id) {
                        let m = choose|m: int| 0 <= m < nodes0.len() && #[trigger] nodes0[m].node_id == id;
                        assert(before[m].node_id == id);
                    }
                    if has_node(before, id) {
                        let m = choose|m: int| 0 <= m < before.len() && #[trigger] before[m].node_id == id;
                        assert(nodes0[m].node_id == id);
                    }
                }
                assert(inserted == (has_node(before, id) && !is_active_in(before, id)));
                assert(self.active_nodes@ =~= recorded_after(old(self).active_nodes@, next, nodes0));
            }
            i = i + 1;
        }
        assert(path@.subrange(0, path@.len() as int) == path@);
    }
}

/// What a click on node `id` does to the nodes and the highlighted path. A node of the
/// tree flips between allocated and not; when it becomes allocated it joins the path
/// once, when it is unallocated it leaves it. A click on anything else changes nothing.
pub open spec fn click_effect(
    nodes: Seq<TreeNode>,
    path: Seq<usize>,
    id: usize,
    new_nodes: Seq<TreeNode>,
    new_path: Seq<usize>,
) -> bool {
    if has_node(nodes, id) {
        let k = choose|k: int| 0 <= k < nodes.len() && #[trigger] nodes[k].node_id == id;
        let now = !nodes[k].active;
        &&& new_nodes == nodes.update(k, TreeNode { node_id: id, active: now })
        &&& now ==> new_path == with_node(path, id)
        &&& !now ==> new_path == path.filter(other_than(id))
    } else {
        new_nodes == nodes && new_path == path
    }
}

/// The test that keeps every identifier but `id`.
pub open spec fn other_than(id: usize) -> spec_fn(usize) -> bool {
    |x: usize| x != id
}

/// Law: a second click on the same node gives back the nodes as they were; and when
/// the node was unallocated and off the highlighted path (or not a node of the tree),
/// the highlighted path as it was too.
pub proof fn clicking_twice_restores(
    nodes: Seq<TreeNode>,
    path: Seq<usize>,
    id: usize,
    mid_nodes: Seq<TreeNode>,
    mid_path: Seq<usize>,
    end_nodes: Seq<TreeNode>,
    end_path: Seq<usize>,
)
    requires
        distinct_ids(nodes),
        click_effect(nodes, path, id, mid_nodes, mid_path),
        click_effect(mid_nodes, mid_path, id, end_nodes, end_path),
    ensures
        end_nodes == nodes,
        !has_node(nodes, id) || (!is_active_in(nodes, id) && !path.contains(id)) ==> end_path == path,
{
    if has_node(nodes, id) {
        let k = choose|k: int| 0 <= k < nodes.len() && #[trigger] nodes[k].node_id == id;
        lemma_active_at(nodes, k, id);
        let now = !nodes[k].active;
        assert(mid_nodes[k].node_id == id);
        assert(distinct_ids(mid_nodes)) by {
            assert forall|a: int, b: int| 0 <= a < b < mid_nodes.len() implies mid_nodes[a].node_id
                != mid_nodes[b].node_id by {
                assert(mid_nodes[a].node_id == nodes[a].node_id);
                assert(mid_nodes[b].node_id == nodes[b].node_id);
            }
        }
        let k2 = choose|k2: int| 0 <= k2 < mid_nodes.len() && #[trigger] mid_nodes[k2].node_id == id;
        assert(has_node(mid_nodes, id));
        if k2 != k {
            if k2 < k {
                assert(mid_nodes[k2].node_id != mid_nodes[k].node_id);
            } else {
                assert(mid_nodes[k].node_id != mid_nodes[k2].node_id);
            }
        }
        assert(end_nodes =~= nodes);
        if !nodes[k].active && !path.contains(id) {
            let p = other_than(id);
            assert(mid_path == path.push(id));
            assert(mid_nodes[k].active);
            assert(end_path == mid_path.filter(p));
            path.lemma_filter_push(id, p);
            assert forall|x: usize| !p(x) implies !path.contains(x) by {}
            lemma_filter_keeps_all(path, p);
        }
    }
}

/// A filter that every element passes keeps the sequence as it is.
proof fn lemma_filter_keeps_all(s: Seq<usize>, p: spec_fn(usize) -> bool)
    requires
        forall|i: int| 0 <= i < s.len() ==> p(#[trigger] s[i]) || !s.contains(s[i]),
        forall|x: usize| !p(x) ==> !s.contains(x),
    ensures
        s.filter(p) == s,
    decreases s.len(),
{
    if s.len() > 0 {
        let init = s.drop_last();
        assert(s == init.push(s.last()));
        assert forall|x: usize| !p(x) implies !init.contains(x) by {
            if init.contains(x) {
                let j = choose|j: int| 0 <= j < init.len() && init[j] == x;
                assert(s[j] == x);
            }
        }
        lemma_filter_keeps_all(init, p);
        init.lemma_filter_push(s.last(), p);
        assert(s.contains(s.last()));
    }
}

/// Law: the edges left when a node `id` is unallocated by a click are exactly the
/// allocated edges that do not have `id` at an end; none of those left touches it.
pub proof fn unallocating_drops_exactly_the_edges_at_the_node(
    edges: Seq<(usize, usize)>,
    id: usize,
    e: (usize, usize),
)
    ensures
        edges.filter(away_from(id)).contains(e) <==> (edges.contains(e) && !touches(e, id)),
{
    broadcast use vstd::seq_lib::group_filter_ensures;

    let p = away_from(id);
    if edges.filter(p).contains(e) {
        edges.lemma_filter_contains_rev(p, e);
        let j = choose|j: int| 0 <= j < edges.filter(p).len() && edges.filter(p)[j] == e;
        assert(p(edges.filter(p)[j]));
    }
    if edges.contains(e) && !touches(e, id) {
        let j = choose|j: int| 0 <= j < edges.len() && edges[j] == e;
        assert(p(edges[j]));
    }
}

/// The nodes of `path` that are nodes of the tree `nodes`.
pub open spec fn tree_nodes_on(path: Seq<usize>, nodes: Seq<TreeNode>) -> Set<usize> {
    Set::new(|x: usize| path.contains(x) && has_node(nodes, x))
}

fn record_path_nodes(recorded: &mut HashSet<usize>, path: &Vec<usize>, tree: &TreeNodes)
    ensures
        final(recorded)@ == old(recorded)@.union(tree_nodes_on(path@, tree.seq())),
{
    let mut i: usize = 0;
    proof {
        assert(old(recorded)@.union(tree_nodes_on(path@.subrange(0, 0), tree.seq())) =~= old(recorded)@);
    }
    while i < path.len()
        invariant
            i <= path@.len(),
            recorded@ == old(recorded)@.union(tree_nodes_on(path@.subrange(0, i as int), tree.seq())),
        decreases path@.len() - i,
    {
        let id = path[i];
        let in_tree = tree.find(id).is_some();
        if in_tree {
            recorded.insert(id);
        }
        proof {
            let pre = path@.subrange(0, i as int);
            let next = path@.subrange(0, i + 1);
            assert(next == pre.push(id));
            assert forall|x: usize| next.contains(x) == (pre.contains(x) || x == id) by {
                if next.contains(x) {
                    let j = choose|j: int| 0 <= j < next.len() && next[j] == x;
                    if j < i {
                        assert(pre[j] == x);
                    }
                }
                if pre.contains(x) {
                    let j = choose|j: int| 0 <= j < pre.len() && pre[j] == x;
                    assert(next[j] == x);
                }
                assert(next[i as int] == id);
            }
            assert(recorded@ =~= old(recorded)@.union(tree_nodes_on(next, tree.seq())));
        }
        i = i + 1;
    }
    assert(path@.subrange(0, path@.len() as int) == path@);
}

/// The nodes recorded as allocated once `path` is allocated on `nodes`: those recorded
/// before, and the nodes of the path that are in the tree and were not allocated.
pub open spec fn recorded_after(before: Set<usize>, path: Seq<usize>, nodes: Seq<TreeNode>) -> Set<usize> {
    before.union(Set::new(|x: usize| path.contains(x) && has_node(nodes, x) && !is_active_in(nodes, x)))
}

/// The nodes once every node of `path` is allocated: each node keeps its identifier and
/// is allocated when it was, or when the path passes through it.
pub open spec fn allocated_along(nodes: Seq<TreeNode>, path: Seq<usize>) -> Seq<TreeNode> {
    nodes.map_values(|n: TreeNode| TreeNode { node_id: n.node_id, active: n.active || path.contains(n.node_id) })
}

proof fn lemma_allocated_along_ids(nodes: Seq<TreeNode>, path: Seq<usize>)
    requires
        distinct_ids(nodes),
    ensures
        distinct_ids(allocated_along(nodes, path)),
        allocated_along(nodes, path).len() == nodes.len(),
        forall|m: int| 0 <= m < nodes.len() ==> (#[trigger] allocated_along(nodes, path)[m]).node_id == nodes[m].node_id,
{
}

/// Law: once a path is allocated, a node is allocated exactly when it was before or the
/// path passes through it.
pub proof fn allocating_a_path_allocates_its_nodes(nodes: Seq<TreeNode>, path: Seq<usize>, id: usize)
    requires
        distinct_ids(nodes),
    ensures
        is_active_in(allocated_along(nodes, path), id) == (is_active_in(nodes, id) || (path.contains(id) && has_node(
            nodes,
            id,
        ))),
{
    let after = allocated_along(nodes, path);
    if is_active_in(after, id) {
        let m = choose|m: int| 0 <= m < after.len() && #[trigger] after[m].node_id == id && after[m].active;
        assert(nodes[m].node_id == id);
    }
    if is_active_in(nodes, id) {
        let m = choose|m: int| 0 <= m < nodes.len() && #[trigger] nodes[m].node_id == id && nodes[m].active;
        assert(after[m].node_id == id && after[m].active);
    }
    if path.contains(id) && has_node(nodes, id) {
        let m = choose|m: int| 0 <= m < nodes.len() && #[trigger] nodes[m].node_id == id;
        assert(after[m].node_id == id && after[m].active);
    }
}

/// Law: allocating the same path a second time changes nothing.
pub proof fn allocating_a_path_twice_changes_nothing(nodes: Seq<TreeNode>, path: Seq<usize>)
    ensures
        allocated_along(allocated_along(nodes, path), path) == allocated_along(nodes, path),
{
    assert(allocated_along(allocated_along(nodes, path), path) =~= allocated_along(nodes, path));
}

/// Whether position `b` of `candidates` holds the first of the shortest non-empty paths.
pub open spec fn is_first_shortest_path(candidates: Seq<(Vec<usize>, usize)>, b: int) -> bool {
    &&& 0 <= b < candidates.len()
    &&& candidates[b].0@.len() > 0
    &&& forall|k: int|
        0 <= k < candidates.len() && #[trigger] candidates[k].0@.len() > 0 ==> candidates[b].0@.len()
            <= candidates[k].0@.len()
    &&& forall|k: int|
        0 <= k < b && #[trigger] candidates[k].0@.len() > 0 ==> candidates[b].0@.len() < candidates[k].0@.len()
}

/// With distinct identifiers, node `id` at position `k` is allocated exactly when the
/// node there is.
proof fn lemma_active_at(nodes: Seq<TreeNode>, k: int, id: usize)
    requires
        distinct_ids(nodes),
        0 <= k < nodes.len(),
        nodes[k].node_id == id,
    ensures
        is_active_in(nodes, id) == nodes[k].active,
        has_node(nodes, id),
{
    if is_active_in(nodes, id) {
        let m = choose|m: int| 0 <= m < nodes.len() && #[trigger] nodes[m].node_id == id && nodes[m].active;
        if m != k {
            if m < k {
                assert(nodes[m].node_id != nodes[k].node_id);
            } else {
                assert(nodes[k].node_id != nodes[m].node_id);
            }
        }
    }
}

/// The path of a found shortest path (empty when none was found).
pub open spec fn found_path(found: Option<(Vec<usize>, usize)>) -> Seq<usize> {
    match found {
        Some((p, _)) => p@,
        None => Seq::empty(),
    }
}

/// The directed edges of a path: each pair of neighbours, in both directions.
pub open spec fn path_edges(path: Seq<usize>) -> Set<(usize, usize)> {
    Set::new(|e: (usize, usize)| exists|k: int| 0 <= k < path.len() - 1 && #[trigger] links(path, k, e))
}

/// Whether `e` joins the neighbours at `k` and `k + 1` on `path`, in either direction.
pub open spec fn links(path: Seq<usize>, k: int, e: (usize, usize)) -> bool {
    e == (path[k], path[k + 1]) || e == (path[k + 1], path[k])
}

fn usize_contains(ids: &Vec<usize>, id: usize) -> (found: bool)
    ensures
        found == ids@.contains(id),
{
    let mut i: usize = 0;
    while i < ids.len()
        invariant
            i <= ids@.len(),
            forall|k: int| 0 <= k < i ==> ids@[k] != id,
        decreases ids@.len() - i,
    {
        if ids[i] == id {
            assert(ids@[i as int] == id);
            return true;
        }
        i = i + 1;
    }
    false
}

fn retain_other(ids: &Vec<usize>, id: usize) -> (kept: Vec<usize>)
    ensures
        kept@ == ids@.filter(other_than(id)),
{
    let ghost p = other_than(id);
    let mut kept: Vec<usize> = Vec::new();
    let mut i: usize = 0;
    while i < ids.len()
        invariant
            i <= ids@.len(),
            p == other_than(id),
            kept@ == ids@.subrange(0, i as int).filter(p),
        decreases ids@.len() - i,
    {
        let x = ids[i];
        proof {
            assert(ids@.subrange(0, i + 1) == ids@.subrange(0, i as int).push(x));
            ids@.subrange(0, i as int).lemma_filter_push(x, p);
        }
        if x != id {
            kept.push(x);
        }
        i = i + 1;
    }
    assert(ids@.subrange(0, ids@.len() as int) == ids@);
    kept
}

} // verus!
