use vstd::prelude::*;

use crate::components::{EdgeMarker, NodeId};
use crate::events::{EdgeActivationReq, EdgeDeactivationReq};
use crate::node_set::{edge_set_from, lemma_pick_step, node_set_from, picks_exactly, EdgeSet, NodeSet};

verus! {

/// Whether both ends of `edge` are among the active nodes.
pub open spec fn both_ends_active(active: Seq<NodeId>, edge: EdgeMarker) -> bool {
    active.contains(edge.0) && active.contains(edge.1)
}

/// Whether some activation request names the edge `(start, end)`, in that order.
pub open spec fn activation_requested(reqs: Seq<EdgeActivationReq>, start: NodeId, end: NodeId) -> bool {
    exists|k: int| #![trigger reqs[k]] 0 <= k < reqs.len() && reqs[k].0 == start && reqs[k].1 == end
}

/// Whether some deactivation request names the edge `(start, end)`, in that order.
pub open spec fn deactivation_requested(reqs: Seq<EdgeDeactivationReq>, start: NodeId, end: NodeId) -> bool {
    exists|k: int| #![trigger reqs[k]] 0 <= k < reqs.len() && reqs[k].0 == start && reqs[k].1 == end
}

/// Which unlit edge (by position in `inactive_edges`) is to be lit: it was requested
/// and both its ends are active.
pub open spec fn activates(
    inactive_edges: Seq<EdgeMarker>,
    reqs: Seq<EdgeActivationReq>,
    active: Seq<NodeId>,
) -> spec_fn(int) -> bool {
    |i: int|
        activation_requested(reqs, inactive_edges[i].0, inactive_edges[i].1) && both_ends_active(
            active,
            inactive_edges[i],
        )
}

/// Which lit edge (by position in `active_edges`) is to be put out: it was requested
/// and one of its ends is no longer active.
pub open spec fn deactivates(
    active_edges: Seq<EdgeMarker>,
    reqs: Seq<EdgeDeactivationReq>,
    active: Seq<NodeId>,
) -> spec_fn(int) -> bool {
    |i: int|
        deactivation_requested(reqs, active_edges[i].0, active_edges[i].1) && !both_ends_active(
            active,
            active_edges[i],
        )
}

fn activation_pairs(reqs: &Vec<EdgeActivationReq>) -> (pairs: Vec<(NodeId, NodeId)>)
    ensures
        pairs@.len() == reqs@.len(),
        forall|k: int| 0 <= k < reqs@.len() ==> #[trigger] pairs@[k] == (reqs@[k].0, reqs@[k].1),
{
    let mut pairs: Vec<(NodeId, NodeId)> = Vec::new();
    let mut i: usize = 0;
    while i < reqs.len()
        invariant
            i <= reqs@.len(),
            pairs@.len() == i,
            forall|k: int| 0 <= k < i ==> #[trigger] pairs@[k] == (reqs@[k].0, reqs@[k].1),
        decreases reqs@.len() - i,
    {
        pairs.push(reqs[i].as_tuple());
        i = i + 1;
    }
    pairs
}

fn deactivation_pairs(reqs: &Vec<EdgeDeactivationReq>) -> (pairs: Vec<(NodeId, NodeId)>)
    ensures
        pairs@.len() == reqs@.len(),
        forall|k: int| 0 <= k < reqs@.len() ==> #[trigger] pairs@[k] == (reqs@[k].0, reqs@[k].1),
{
    let mut pairs: Vec<(NodeId, NodeId)> = Vec::new();
    let mut i: usize = 0;
    while i < reqs.len()
        invariant
            i <= reqs@.len(),
            pairs@.len() == i,
            forall|k: int| 0 <= k < i ==> #[trigger] pairs@[k] == (reqs@[k].0, reqs@[k].1),
        decreases reqs@.len() - i,
    {
        pairs.push(reqs[i].as_tuple());
        i = i + 1;
    }
    pairs
}

/// Of the unlit edges, the positions of those to light: requested this frame and with
/// both ends active. Each gets `EdgeActive` in place of `EdgeInactive` and the lit colour.
pub fn process_edge_activations(
    inactive_edges: &Vec<EdgeMarker>,
    requested: &Vec<EdgeActivationReq>,
    active_nodes: &Vec<NodeId>,
) -> (to_activate: Vec<usize>)
    ensures
        picks_exactly(
            to_activate@,
            inactive_edges@.len() as int,
            activates(inactive_edges@, requested@, active_nodes@),
        ),
{
    let active: NodeSet = node_set_from(active_nodes);
    let pairs = activation_pairs(requested);
    let wanted: EdgeSet = edge_set_from(&pairs);
    let ghost pred = activates(inactive_edges@, requested@, active_nodes@);
    let mut picked: Vec<usize> = Vec::new();
    let mut i: usize = 0;
    while i < inactive_edges.len()
        invariant
            i <= inactive_edges@.len(),
            active@ == active_nodes@.to_set(),
            wanted@ == pairs@.to_set(),
            pairs@.len() == requested@.len(),
            forall|k: int| 0 <= k < requested@.len() ==> #[trigger] pairs@[k] == (requested@[k].0, requested@[k].1),
            pred == activates(inactive_edges@, requested@, active_nodes@),
            picks_exactly(picked@, i as int, pred),
        decreases inactive_edges@.len() - i,
    {
        let (start, end) = inactive_edges[i].as_tuple();
        let hit = wanted.contains((start, end)) && active.contains(start) && active.contains(end);
        proof {
            if wanted@.contains((start, end)) {
                let k = choose|k: int| 0 <= k < pairs@.len() && pairs@[k] == (start, end);
                assert(requested@[k].0 == start && requested@[k].1 == end);
            }
            if activation_requested(requested@, start, end) {
                let k = choose|k: int| 0 <= k < requested@.len() && requested@[k].0 == start && requested@[k].1 == end;
                assert(pairs@[k] == (start, end));
            }
            assert(hit == pred(i as int));
        }
        let ghost before = picked@;
        if hit {
            picked.push(i);
        }
        proof {
            lemma_pick_step(before, picked@, i, pred);
        }
        i = i + 1;
    }
    picked
}

/// Of the lit edges, the positions of those to put out: requested this frame and with
/// an end that is no longer active. Each gets `EdgeInactive` in place of `EdgeActive`
/// and the base colour.
pub fn process_edge_deactivations(
    active_edges: &Vec<EdgeMarker>,
    requested: &Vec<EdgeDeactivationReq>,
    active_nodes: &Vec<NodeId>,
) -> (to_deactivate: Vec<usize>)
    ensures
        picks_exactly(
            to_deactivate@,
            active_edges@.len() as int,
            deactivates(active_edges@, requested@, active_nodes@),
        ),
{
    let active: NodeSet = node_set_from(active_nodes);
    let pairs = deactivation_pairs(requested);
    let wanted: EdgeSet = edge_set_from(&pairs);
    let ghost pred = deactivates(active_edges@, requested@, active_nodes@);
    let mut picked: Vec<usize> = Vec::new();
    let mut i: usize = 0;
    while i < active_edges.len()
        invariant
            i <= active_edges@.len(),
            active@ == active_nodes@.to_set(),
            wanted@ == pairs@.to_set(),
            pairs@.len() == requested@.len(),
            forall|k: int| 0 <= k < requested@.len() ==> #[trigger] pairs@[k] == (requested@[k].0, requested@[k].1),
            pred == deactivates(active_edges@, requested@, active_nodes@),
            picks_exactly(picked@, i as int, pred),
        decreases active_edges@.len() - i,
    {
        let (start, end) = active_edges[i].as_tuple();
        let hit = wanted.contains((start, end)) && (!active.contains(start) || !active.contains(end));
        proof {
            if wanted@.contains((start, end)) {
                let k = choose|k: int| 0 <= k < pairs@.len() && pairs@[k] == (start, end);
                assert(requested@[k].0 == start && requested@[k].1 == end);
            }
            if deactivation_requested(requested@, start, end) {
                let k = choose|k: int| 0 <= k < requested@.len() && requested@[k].0 == start && requested@[k].1 == end;
                assert(pairs@[k] == (start, end));
            }
            assert(hit == pred(i as int));
        }
        let ghost before = picked@;
        if hit {
            picked.push(i);
        }
        proof {
            lemma_pick_step(before, picked@, i, pred);
        }
        i = i + 1;
    }
    picked
}

/// The edge with both ends active, as a test on an edge.
pub open spec fn lit_test(active: Seq<NodeId>) -> spec_fn(EdgeMarker) -> bool {
    |e: EdgeMarker| both_ends_active(active, e)
}

/// The edge with an inactive end, as a test on an edge.
pub open spec fn unlit_test(active: Seq<NodeId>) -> spec_fn(EdgeMarker) -> bool {
    |e: EdgeMarker| !both_ends_active(active, e)
}

/// The activation request for an edge, its ends in order.
pub open spec fn activation_of(e: EdgeMarker) -> EdgeActivationReq {
    EdgeActivationReq(e.0, e.1)
}

/// The deactivation request for an edge, its ends in order.
pub open spec fn deactivation_of(e: EdgeMarker) -> EdgeDeactivationReq {
    EdgeDeactivationReq(e.0, e.1)
}

/// Asks, for every unlit edge whose two ends are active, that it be lit; in the
/// order of the edges.
pub fn scan_edges_for_active_updates(inactive_edges: &Vec<EdgeMarker>, active_nodes: &Vec<NodeId>) -> (reqs:
    Vec<EdgeActivationReq>)
    ensures
        reqs@ == inactive_edges@.filter(lit_test(active_nodes@)).map_values(|e: EdgeMarker| activation_of(e)),
{
    let active: NodeSet = node_set_from(active_nodes);
    let ghost p = lit_test(active_nodes@);
    let ghost f = |e: EdgeMarker| activation_of(e);
    let mut reqs: Vec<EdgeActivationReq> = Vec::new();
    let mut i: usize = 0;
    while i < inactive_edges.len()
        invariant
            i <= inactive_edges@.len(),
            active@ == active_nodes@.to_set(),
            p == lit_test(active_nodes@),
            f == (|e: EdgeMarker| activation_of(e)),
            reqs@ == inactive_edges@.subrange(0, i as int).filter(p).map_values(f),
        decreases inactive_edges@.len() - i,
    {
        let edge = inactive_edges[i];
        let ghost pre = inactive_edges@.subrange(0, i as int);
        proof {
            assert(inactive_edges@.subrange(0, i + 1) == pre.push(edge));
            pre.lemma_filter_push(edge, p);
        }
        if active.contains(edge.0) && active.contains(edge.1) {
            reqs.push(EdgeActivationReq(edge.0, edge.1));
            proof {
                pre.filter(p).lemma_push_map_commute(f, edge);
            }
        }
        i = i + 1;
    }
    assert(inactive_edges@.subrange(0, inactive_edges@.len() as int) == inactive_edges@);
    reqs
}

/// Asks, for every lit edge with an end that is not active, that it be put out; in
/// the order of the edges.
pub fn scan_edges_for_inactive_updates(active_edges: &Vec<EdgeMarker>, active_nodes: &Vec<NodeId>) -> (reqs:
    Vec<EdgeDeactivationReq>)
    ensures
        reqs@ == active_edges@.filter(unlit_test(active_nodes@)).map_values(|e: EdgeMarker| deactivation_of(e)),
{
    let active: NodeSet = node_set_from(active_nodes);
    let ghost p = unlit_test(active_nodes@);
    let ghost f = |e: EdgeMarker| deactivation_of(e);
    let mut reqs: Vec<EdgeDeactivationReq> = Vec::new();
    let mut i: usize = 0;
    while i < active_edges.len()
        invariant
            i <= active_edges@.len(),
            active@ == active_nodes@.to_set(),
            p == unlit_test(active_nodes@),
            f == (|e: EdgeMarker| deactivation_of(e)),
            reqs@ == active_edges@.subrange(0, i as int).filter(p).map_values(f),
        decreases active_edges@.len() - i,
    {
        let edge = active_edges[i];
        let ghost pre = active_edges@.subrange(0, i as int);
        proof {
            assert(active_edges@.subrange(0, i + 1) == pre.push(edge));
            pre.lemma_filter_push(edge, p);
        }
        if !active.contains(edge.0) || !active.contains(edge.1) {
            reqs.push(EdgeDeactivationReq(edge.0, edge.1));
            proof {
                pre.filter(p).lemma_push_map_commute(f, edge);
            }
        }
        i = i + 1;
    }
    assert(active_edges@.subrange(0, active_edges@.len() as int) == active_edges@);
    reqs
}

/// The positions of the unlit edges to light and to keep unlit, by whether both ends
/// are among `nodes` (the nodes on the tree, as the system collects them): each edge
/// lands in exactly one of the two.
pub fn update_edges(inactive_edges: &Vec<EdgeMarker>, nodes: &Vec<NodeId>) -> (picks: (Vec<usize>, Vec<usize>))
    ensures
        picks_exactly(picks.0@, inactive_edges@.len() as int, |i: int| both_ends_active(nodes@, inactive_edges@[i])),
        picks_exactly(picks.1@, inactive_edges@.len() as int, |i: int| !both_ends_active(nodes@, inactive_edges@[i])),
{
    let present: NodeSet = node_set_from(nodes);
    let ghost lit = |i: int| both_ends_active(nodes@, inactive_edges@[i]);
    let ghost unlit = |i: int| !both_ends_active(nodes@, inactive_edges@[i]);
    let mut light: Vec<usize> = Vec::new();
    let mut dark: Vec<usize> = Vec::new();
    let mut i: usize = 0;
    while i < inactive_edges.len()
        invariant
            i <= inactive_edges@.len(),
            present@ == nodes@.to_set(),
            lit == (|i: int| both_ends_active(nodes@, inactive_edges@[i])),
            unlit == (|i: int| !both_ends_active(nodes@, inactive_edges@[i])),
            picks_exactly(light@, i as int, lit),
            picks_exactly(dark@, i as int, unlit),
        decreases inactive_edges@.len() - i,
    {
        let (start, end) = inactive_edges[i].as_tuple();
        let both = present.contains(start) && present.contains(end);
        proof {
            assert(nodes@.to_set().contains(start) == nodes@.contains(start));
            assert(nodes@.to_set().contains(end) == nodes@.contains(end));
        }
        let ghost before_light = light@;
        let ghost before_dark = dark@;
        if both {
            light.push(i);
        } else {
            dark.push(i);
        }
        proof {
            lemma_pick_step(before_light, light@, i, lit);
            lemma_pick_step(before_dark, dark@, i, unlit);
        }
        i = i + 1;
    }
    (light, dark)
}

/// An edge as the background updater sees it: its ends and whether it carries
/// `EdgeActive` and `EdgeInactive`.
#[derive(Clone, Copy, Debug)]
pub struct EdgeState {
    pub edge: EdgeMarker,
    pub lit: bool,
    pub unlit: bool,
}

/// Whether the updater lights the edge: both ends are active, and it is marked unlit only.
pub open spec fn updater_lights(active: Seq<NodeId>, e: EdgeState) -> bool {
    both_ends_active(active, e.edge) && !e.lit && e.unlit
}

/// Whether the updater puts the edge out: an end is not active, and it is marked lit only.
pub open spec fn updater_puts_out(active: Seq<NodeId>, e: EdgeState) -> bool {
    !both_ends_active(active, e.edge) && e.lit && !e.unlit
}

/// Brings every edge in line with the active nodes: the positions of the edges to light
/// and of those to put out. An edge whose marks already agree, or that carries both or
/// neither, is left alone.
pub fn bg_edge_updater(edges: &Vec<EdgeState>, active_nodes: &Vec<NodeId>) -> (picks: (Vec<usize>, Vec<usize>))
    ensures
        picks_exactly(picks.0@, edges@.len() as int, |i: int| updater_lights(active_nodes@, edges@[i])),
        picks_exactly(picks.1@, edges@.len() as int, |i: int| updater_puts_out(active_nodes@, edges@[i])),
{
    let active: NodeSet = node_set_from(active_nodes);
    let ghost on = |i: int| updater_lights(active_nodes@, edges@[i]);
    let ghost off = |i: int| updater_puts_out(active_nodes@, edges@[i]);
    let mut light: Vec<usize> = Vec::new();
    let mut dark: Vec<usize> = Vec::new();
    let mut i: usize = 0;
    while i < edges.len()
        invariant
            i <= edges@.len(),
            active@ == active_nodes@.to_set(),
            on == (|i: int| updater_lights(active_nodes@, edges@[i])),
            off == (|i: int| updater_puts_out(active_nodes@, edges@[i])),
            picks_exactly(light@, i as int, on),
            picks_exactly(dark@, i as int, off),
        decreases edges@.len() - i,
    {
        let e = edges[i];
        let (start, end) = e.edge.as_tuple();
        let should_be_lit = active.contains(start) && active.contains(end);
        proof {
            assert(active_nodes@.to_set().contains(start) == active_nodes@.contains(start));
            assert(active_nodes@.to_set().contains(end) == active_nodes@.contains(end));
        }
        let ghost before_light = light@;
        let ghost before_dark = dark@;
        if should_be_lit && !e.lit && e.unlit {
            light.push(i);
        } else if !should_be_lit && e.lit && !e.unlit {
            dark.push(i);
        }
        proof {
            lemma_pick_step(before_light, light@, i, on);
            lemma_pick_step(before_dark, dark@, i, off);
        }
        i = i + 1;
    }
    (light, dark)
}

/// Law: scanning the unlit edges and then processing the requests that the scan
/// made lights exactly the unlit edges whose two ends are active.
pub proof fn scan_then_activate_lights_exactly_the_connected(
    inactive_edges: Seq<EdgeMarker>,
    active_nodes: Seq<NodeId>,
    reqs: Seq<EdgeActivationReq>,
    i: int,
)
    requires
        reqs == inactive_edges.filter(lit_test(active_nodes)).map_values(|e: EdgeMarker| activation_of(e)),
        0 <= i < inactive_edges.len(),
    ensures
        activates(inactive_edges, reqs, active_nodes)(i) == both_ends_active(active_nodes, inactive_edges[i]),
{
    let p = lit_test(active_nodes);
    let filtered = inactive_edges.filter(p);
    let e = inactive_edges[i];
    if both_ends_active(active_nodes, e) {
        inactive_edges.lemma_filter_contains(p, i);
        let m = choose|m: int| 0 <= m < filtered.len() && filtered[m] == e;
        assert(reqs[m] == activation_of(filtered[m]));
    }
    if activation_requested(reqs, e.0, e.1) {
        let k = choose|k: int| 0 <= k < reqs.len() && reqs[k].0 == e.0 && reqs[k].1 == e.1;
        inactive_edges.lemma_filter_pred(p, k);
        assert(reqs[k] == activation_of(filtered[k]));
        assert(both_ends_active(active_nodes, filtered[k]));
    }
}

/// Law: scanning the lit edges and then processing the requests that the scan made
/// puts out exactly the lit edges with an end that is not active.
pub proof fn scan_then_deactivate_puts_out_exactly_the_broken(
    active_edges: Seq<EdgeMarker>,
    active_nodes: Seq<NodeId>,
    reqs: Seq<EdgeDeactivationReq>,
    i: int,
)
    requires
        reqs == active_edges.filter(unlit_test(active_nodes)).map_values(|e: EdgeMarker| deactivation_of(e)),
        0 <= i < active_edges.len(),
    ensures
        deactivates(active_edges, reqs, active_nodes)(i) == !both_ends_active(active_nodes, active_edges[i]),
{
    let p = unlit_test(active_nodes);
    let filtered = active_edges.filter(p);
    let e = active_edges[i];
    if !both_ends_active(active_nodes, e) {
        active_edges.lemma_filter_contains(p, i);
        let m = choose|m: int| 0 <= m < filtered.len() && filtered[m] == e;
        assert(reqs[m] == deactivation_of(filtered[m]));
    }
    if deactivation_requested(reqs, e.0, e.1) {
        let k = choose|k: int| 0 <= k < reqs.len() && reqs[k].0 == e.0 && reqs[k].1 == e.1;
        active_edges.lemma_filter_pred(p, k);
        assert(reqs[k] == deactivation_of(filtered[k]));
        assert(!both_ends_active(active_nodes, filtered[k]));
    }
}

/// Law: no edge is both lit and put out by the same frame's decisions: a requested
/// edge is lit only when both ends are active and put out only when one is not.
pub proof fn activation_and_deactivation_exclude(
    edge: EdgeMarker,
    act_reqs: Seq<EdgeActivationReq>,
    deact_reqs: Seq<EdgeDeactivationReq>,
    active_nodes: Seq<NodeId>,
)
    ensures
        !(activates(seq![edge], act_reqs, active_nodes)(0) && deactivates(seq![edge], deact_reqs, active_nodes)(0)),
{
}

} // verus!
