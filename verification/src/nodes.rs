use vstd::prelude::*;

use crate::characters::ActiveCharacter;
use crate::components::{EdgeMarker, NodeId};
use crate::events::{NodeActivationReq, NodeDeactivationReq};
use crate::node_set::{lemma_pick_step, picks_exactly};

verus! {

/// Whether some activation request names `node`.
pub open spec fn activation_asked(reqs: Seq<NodeActivationReq>, node: NodeId) -> bool {
    exists|k: int| #![trigger reqs[k]] 0 <= k < reqs.len() && reqs[k].0 == node
}

/// Whether some deactivation request names `node`.
pub open spec fn deactivation_asked(reqs: Seq<NodeDeactivationReq>, node: NodeId) -> bool {
    exists|k: int| #![trigger reqs[k]] 0 <= k < reqs.len() && reqs[k].0 == node
}

/// The root as the activation system reads it: the default identifier 0 when unset.
pub open spec fn root_or_default(root: Option<NodeId>) -> NodeId {
    match root {
        Some(r) => r,
        None => 0,
    }
}

/// Which unallocated node (by position) is to be allocated: it was asked for, or it is the root.
pub open spec fn node_activates(
    inactive_nodes: Seq<NodeId>,
    reqs: Seq<NodeActivationReq>,
    root: Option<NodeId>,
) -> spec_fn(int) -> bool {
    |i: int| activation_asked(reqs, inactive_nodes[i]) || inactive_nodes[i] == root_or_default(root)
}

/// Which allocated node (by position) is to be unallocated: it was asked for and is not
/// a protected (class start) node.
pub open spec fn node_deactivates(
    active_nodes: Seq<NodeId>,
    reqs: Seq<NodeDeactivationReq>,
    protected: Seq<NodeId>,
) -> spec_fn(int) -> bool {
    |i: int| !protected.contains(active_nodes[i]) && deactivation_asked(reqs, active_nodes[i])
}

fn activation_asked_exec(reqs: &Vec<NodeActivationReq>, node: NodeId) -> (asked: bool)
    ensures
        asked == activation_asked(reqs@, node),
{
    let mut i: usize = 0;
    while i < reqs.len()
        invariant
            i <= reqs@.len(),
            forall|k: int| 0 <= k < i ==> reqs@[k].0 != node,
        decreases reqs@.len() - i,
    {
        if reqs[i].0 == node {
            assert(reqs@[i as int].0 == node);
            return true;
        }
        i = i + 1;
    }
    false
}

fn deactivation_asked_exec(reqs: &Vec<NodeDeactivationReq>, node: NodeId) -> (asked: bool)
    ensures
        asked == deactivation_asked(reqs@, node),
{
    let mut i: usize = 0;
    while i < reqs.len()
        invariant
            i <= reqs@.len(),
            forall|k: int| 0 <= k < i ==> reqs@[k].0 != node,
        decreases reqs@.len() - i,
    {
        if reqs[i].0 == node {
            assert(reqs@[i as int].0 == node);
            return true;
        }
        i = i + 1;
    }
    false
}

/// Whether `node` is among `ids`.
pub(crate) fn ids_contain(ids: &Vec<NodeId>, node: NodeId) -> (found: bool)
    ensures
        found == ids@.contains(node),
{
    let mut i: usize = 0;
    while i < ids.len()
        invariant
            i <= ids@.len(),
            forall|k: int| 0 <= k < i ==> ids@[k] != node,
        decreases ids@.len() - i,
    {
        if ids[i] == node {
            assert(ids@[i as int] == node);
            return true;
        }
        i = i + 1;
    }
    false
}

/// Of the unallocated nodes (not coloured by hand), the positions of those to allocate:
/// asked for this frame, or the root (the identifier 0 when no root is set). Each gets
/// `NodeActive` in place of `NodeInactive` and the allocated colour.
pub fn process_node_activations(
    inactive_nodes: &Vec<NodeId>,
    requested: &Vec<NodeActivationReq>,
    root: Option<NodeId>,
) -> (to_activate: Vec<usize>)
    ensures
        picks_exactly(to_activate@, inactive_nodes@.len() as int, node_activates(inactive_nodes@, requested@, root)),
{
    let root_id: NodeId = match root {
        Some(r) => r,
        None => 0,
    };
    let ghost pred = node_activates(inactive_nodes@, requested@, root);
    let mut picked: Vec<usize> = Vec::new();
    let mut i: usize = 0;
    while i < inactive_nodes.len()
        invariant
            i <= inactive_nodes@.len(),
            root_id == root_or_default(root),
            pred == node_activates(inactive_nodes@, requested@, root),
            picks_exactly(picked@, i as int, pred),
        decreases inactive_nodes@.len() - i,
    {
        let node = inactive_nodes[i];
        let hit = activation_asked_exec(requested, node) || node == root_id;
        assert(hit == pred(i as int));
        let ghost before = picked@;
        if hit {
            picked.push(i);
        }
        proof {
            lemma_pick_step(before, picked@, i, pred);
        }
        i = i + 1;
    }
    picked
}

/// Of the allocated nodes (not coloured by hand), the positions of those to unallocate:
/// asked for this frame and not among the protected class start nodes. Each gets
/// `NodeInactive` in place of `NodeActive` and the base colour.
pub fn process_node_deactivations(
    active_nodes: &Vec<NodeId>,
    requested: &Vec<NodeDeactivationReq>,
    protected: &Vec<NodeId>,
) -> (to_deactivate: Vec<usize>)
    ensures
        picks_exactly(to_deactivate@, active_nodes@.len() as int, node_deactivates(active_nodes@, requested@, protected@)),
{
    let ghost pred = node_deactivates(active_nodes@, requested@, protected@);
    let mut picked: Vec<usize> = Vec::new();
    let mut i: usize = 0;
    while i < active_nodes.len()
        invariant
            i <= active_nodes@.len(),
            pred == node_deactivates(active_nodes@, requested@, protected@),
            picks_exactly(picked@, i as int, pred),
        decreases active_nodes@.len() - i,
    {
        let node = active_nodes[i];
        let hit = !ids_contain(protected, node) && deactivation_asked_exec(requested, node);
        assert(hit == pred(i as int));
        let ghost before = picked@;
        if hit {
            picked.push(i);
        }
        proof {
            lemma_pick_step(before, picked@, i, pred);
        }
        i = i + 1;
    }
    picked
}

/// Whether enough nodes are allocated for the path systems to run: at least two.
pub fn sufficient_active_nodes(active_count: usize) -> (enough: bool)
    ensures
        enough == (active_count > 1),
{
    active_count > 1
}

/// The positions of the nodes drawn for `node_id`: each loses `NodeActive` and
/// `NodeInactive`, takes the requested colour and becomes `ManuallyHighlighted`.
pub fn process_manual_node_highlights(nodes: &Vec<NodeId>, node_id: NodeId) -> (matches: Vec<usize>)
    ensures
        picks_exactly(matches@, nodes@.len() as int, |i: int| nodes@[i] == node_id),
{
    let ghost pred = |i: int| nodes@[i] == node_id;
    let mut picked: Vec<usize> = Vec::new();
    let mut i: usize = 0;
    while i < nodes.len()
        invariant
            i <= nodes@.len(),
            pred == (|i: int| nodes@[i] == node_id),
            picks_exactly(picked@, i as int, pred),
        decreases nodes@.len() - i,
    {
        let hit = nodes[i] == node_id;
        let ghost before = picked@;
        if hit {
            picked.push(i);
        }
        proof {
            lemma_pick_step(before, picked@, i, pred);
        }
        i = i + 1;
    }
    picked
}

/// Whether an edge joins the two requested nodes, in either direction.
pub open spec fn joins(edge: EdgeMarker, a: NodeId, b: NodeId) -> bool {
    (edge.0 == a && edge.1 == b) || (edge.0 == b && edge.1 == a)
}

/// The positions of the edges that join `start` and `end` in either direction: each
/// loses `EdgeActive` and `EdgeInactive`, takes the requested colour and becomes
/// `ManuallyHighlighted`.
pub fn process_manual_edge_highlights(edges: &Vec<EdgeMarker>, start: NodeId, end: NodeId) -> (matches: Vec<usize>)
    ensures
        picks_exactly(matches@, edges@.len() as int, |i: int| joins(edges@[i], start, end)),
{
    let ghost pred = |i: int| joins(edges@[i], start, end);
    let mut picked: Vec<usize> = Vec::new();
    let mut i: usize = 0;
    while i < edges.len()
        invariant
            i <= edges@.len(),
            pred == (|i: int| joins(edges@[i], start, end)),
            picks_exactly(picked@, i as int, pred),
        decreases edges@.len() - i,
    {
        let (e_start, e_end) = edges[i].as_tuple();
        let hit = (e_start == start && e_end == end) || (e_start == end && e_end == start);
        let ghost before = picked@;
        if hit {
            picked.push(i);
        }
        proof {
            lemma_pick_step(before, picked@, i, pred);
        }
        i = i + 1;
    }
    picked
}

/// The positions of the unallocated nodes that a loaded character holds: its start node
/// and the nodes it has allocated. Each gets `NodeActive` in place of `NodeInactive`.
pub fn highlight_starting_node(inactive_nodes: &Vec<NodeId>, active: &ActiveCharacter) -> (to_activate: Vec<usize>)
    ensures
        picks_exactly(
            to_activate@,
            inactive_nodes@.len() as int,
            |i: int|
                inactive_nodes@[i] == active.character.starting_node || active.character.activated_node_ids.order().contains(
                    inactive_nodes@[i],
                ),
        ),
{
    let ghost pred = |i: int|
        inactive_nodes@[i] == active.character.starting_node || active.character.activated_node_ids.order().contains(
            inactive_nodes@[i],
        );
    let mut picked: Vec<usize> = Vec::new();
    let mut i: usize = 0;
    while i < inactive_nodes.len()
        invariant
            i <= inactive_nodes@.len(),
            pred == (|i: int|
                inactive_nodes@[i] == active.character.starting_node || active.character.activated_node_ids.order().contains(
                    inactive_nodes@[i],
                )),
            picks_exactly(picked@, i as int, pred),
        decreases inactive_nodes@.len() - i,
    {
        let id = inactive_nodes[i];
        let hit = id == active.character.starting_node || active.character.activated_node_ids.contains(id);
        let ghost before = picked@;
        if hit {
            picked.push(i);
        }
        proof {
            lemma_pick_step(before, picked@, i, pred);
        }
        i = i + 1;
    }
    picked
}

/// Law: a protected (class start) node is never unallocated, whatever is asked.
pub proof fn protected_nodes_stay_allocated(
    active_nodes: Seq<NodeId>,
    reqs: Seq<NodeDeactivationReq>,
    protected: Seq<NodeId>,
    picked: Seq<usize>,
    k: int,
)
    requires
        picks_exactly(picked, active_nodes.len() as int, node_deactivates(active_nodes, reqs, protected)),
        0 <= k < picked.len(),
    ensures
        !protected.contains(active_nodes[picked[k] as int]),
{
}

/// Law: when a root is set and its node is unallocated, it is allocated, whatever is asked.
pub proof fn root_is_always_allocated(
    inactive_nodes: Seq<NodeId>,
    reqs: Seq<NodeActivationReq>,
    root: NodeId,
    picked: Seq<usize>,
    i: int,
)
    requires
        picks_exactly(picked, inactive_nodes.len() as int, node_activates(inactive_nodes, reqs, Some(root))),
        0 <= i < inactive_nodes.len(),
        inactive_nodes[i] == root,
    ensures
        picked.contains(i as usize),
{
    assert(node_activates(inactive_nodes, reqs, Some(root))(i));
}

} // verus!
