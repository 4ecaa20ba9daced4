use vstd::prelude::*;

use crate::characters::{activation_ids, deactivation_ids, ActiveCharacter, ActiveNodes};
use crate::components::{EdgeMarker, NodeId};
use crate::edges::deactivation_of;
use crate::events::{EdgeDeactivationReq, NodeActivationReq, NodeDeactivationReq};
use crate::node_set::{lemma_pick_step, node_set_from, picks_exactly, NodeSet};
use crate::nodes::ids_contain;
use crate::resources::{MouseSelecetedNodeHistory, PathRepairRequired};

verus! {

/// The nodes that lie on some path of `paths`.
pub open spec fn path_nodes(paths: Seq<Vec<NodeId>>) -> Set<NodeId> {
    Set::new(|x: NodeId| exists|k: int| 0 <= k < paths.len() && (#[trigger] paths[k])@.contains(x))
}

/// The nodes on `paths`, each once in the order first met, and the same nodes as a set.
fn gather_path_nodes(paths: &Vec<Vec<NodeId>>) -> (gathered: (Vec<NodeId>, NodeSet))
    ensures
        gathered.0@.to_set() == path_nodes(paths@),
        gathered.0@.no_duplicates(),
        gathered.1@ == path_nodes(paths@),
{
    let mut seen = NodeSet::new();
    let mut order: Vec<NodeId> = Vec::new();
    let mut k: usize = 0;
    while k < paths.len()
        invariant
            k <= paths@.len(),
            seen@ == order@.to_set(),
            order@.no_duplicates(),
            order@.to_set() == path_nodes(paths@.subrange(0, k as int)),
        decreases paths@.len() - k,
    {
        let path = &paths[k];
        let mut j: usize = 0;
        while j < path.len()
            invariant
                k < paths@.len(),
                path == paths@[k as int],
                j <= path@.len(),
                seen@ == order@.to_set(),
                order@.no_duplicates(),
                order@.to_set() == path_nodes(paths@.subrange(0, k as int)).union(path@.subrange(0, j as int).to_set()),
            decreases path@.len() - j,
        {
            let x = path[j];
            let ghost before = order@;
            if seen.insert(x) {
                order.push(x);
                proof {
                    before.lemma_push_to_set_commute(x);
                    assert forall|a: int, b: int| 0 <= a < b < order@.len() implies order@[a] != order@[b] by {
                        if b == before.len() {
                            assert(before.to_set().contains(before[a]));
                        }
                    }
                }
            }
            proof {
                assert(path@.subrange(0, j + 1) == path@.subrange(0, j as int).push(x));
                path@.subrange(0, j as int).lemma_push_to_set_commute(x);
                assert(order@.to_set() =~= path_nodes(paths@.subrange(0, k as int)).union(path@.subrange(0, j + 1).to_set()));
            }
            j = j + 1;
        }
        proof {
            assert(path@.subrange(0, path@.len() as int) == path@);
            let next = paths@.subrange(0, k + 1);
            assert forall|x: NodeId| path_nodes(next).contains(x) == order@.to_set().contains(x) by {
                if path_nodes(next).contains(x) {
                    let m = choose|m: int| 0 <= m < next.len() && (#[trigger] next[m])@.contains(x);
                    if m < k {
                        assert(paths@.subrange(0, k as int)[m] == next[m]);
                    }
                }
                if path_nodes(paths@.subrange(0, k as int)).contains(x) {
                    let m = choose|m: int| 0 <= m < k && (#[trigger] paths@.subrange(0, k as int)[m])@.contains(x);
                    assert(next[m] == paths@.subrange(0, k as int)[m]);
                }
                if path@.to_set().contains(x) {
                    assert(next[k as int] == path);
                }
            }
            assert(order@.to_set() =~= path_nodes(next));
        }
        k = k + 1;
    }
    proof {
        assert(paths@.subrange(0, paths@.len() as int) == paths@);
    }
    (order, seen)
}

/// The nodes on the paths from the root to each allocated node (`paths`, one per
/// allocated node, as the tree's search found them), each once, in the order first met.
/// With no root there is nothing to path from: nothing is returned and the repair flag
/// is left alone. Otherwise the flag is raised when no path reached any node, and
/// lowered when one did.
pub fn validate_path_to_root(
    root: Option<NodeId>,
    paths: &Vec<Vec<NodeId>>,
    repair: &mut PathRepairRequired,
) -> (on_paths: Vec<NodeId>)
    ensures
        root is None ==> on_paths@.len() == 0 && final(repair).0 == old(repair).0,
        root is Some ==> on_paths@.to_set() == path_nodes(paths@),
        root is Some ==> on_paths@.no_duplicates(),
        root is Some ==> final(repair).0 == (on_paths@.len() == 0),
{
    if root.is_none() {
        return Vec::new();
    }
    let (order, _seen) = gather_path_nodes(paths);
    if order.len() == 0 {
        repair.request_path_repair();
    } else {
        repair.set_unrequired();
    }
    order
}

/// The nodes shown active that the character does not hold, in order: the nodes a path
/// from the root is searched to.
pub fn new_activations(active_nodes: &Vec<NodeId>, active: &ActiveCharacter) -> (fresh: Vec<NodeId>)
    ensures
        fresh@ == active_nodes@.filter(|id: NodeId| !active.character.activated_node_ids.order().contains(id)),
{
    let ghost p = |id: NodeId| !active.character.activated_node_ids.order().contains(id);
    let mut fresh: Vec<NodeId> = Vec::new();
    let mut i: usize = 0;
    while i < active_nodes.len()
        invariant
            i <= active_nodes@.len(),
            p == (|id: NodeId| !active.character.activated_node_ids.order().contains(id)),
            fresh@ == active_nodes@.subrange(0, i as int).filter(p),
        decreases active_nodes@.len() - i,
    {
        let id = active_nodes[i];
        proof {
            assert(active_nodes@.subrange(0, i + 1) == active_nodes@.subrange(0, i as int).push(id));
            active_nodes@.subrange(0, i as int).lemma_filter_push(id, p);
        }
        if !active.character.activated_node_ids.contains(id) {
            fresh.push(id);
        }
        i = i + 1;
    }
    assert(active_nodes@.subrange(0, active_nodes@.len() as int) == active_nodes@);
    fresh
}

/// Whether position `k` holds the last occurrence of its identifier in `ids`.
pub open spec fn last_with_id(ids: Seq<NodeId>, k: int) -> bool {
    forall|j: int| k < j < ids.len() ==> ids[j] != ids[k]
}

/// Which node (by position among all nodes) the pathfinder allocates: it lies on one of
/// the paths from the root, is not active, and is the entity that a lookup by identifier
/// finds (the last one with that identifier).
pub open spec fn pathfinder_allocates(paths: Seq<Vec<NodeId>>, active: Seq<NodeId>, all: Seq<NodeId>) -> spec_fn(
    int,
) -> bool {
    |k: int| path_nodes(paths).contains(all[k]) && !active.contains(all[k]) && last_with_id(all, k)
}

/// The positions, among all nodes, of the nodes to allocate along the paths from the root
/// to each newly active node (`paths`, as the tree's search found them).
pub fn pathfinding_activations(paths: &Vec<Vec<NodeId>>, active_nodes: &Vec<NodeId>, all_nodes: &Vec<NodeId>) -> (picked:
    Vec<usize>)
    ensures
        picks_exactly(picked@, all_nodes@.len() as int, pathfinder_allocates(paths@, active_nodes@, all_nodes@)),
{
    let (_order, on_path) = gather_path_nodes(paths);
    let active: NodeSet = node_set_from(active_nodes);
    let ghost pred = pathfinder_allocates(paths@, active_nodes@, all_nodes@);
    let n = all_nodes.len();
    let mut flags: Vec<bool> = Vec::new();
    let mut f: usize = 0;
    while f < n
        invariant
            f <= n,
            flags@.len() == f,
        decreases n - f,
    {
        flags.push(false);
        f = f + 1;
    }
    let mut later = NodeSet::new();
    let mut k: usize = n;
    while k > 0
        invariant
            k <= n,
            n == all_nodes@.len(),
            flags@.len() == n,
            on_path@ == path_nodes(paths@),
            active@ == active_nodes@.to_set(),
            later@ == all_nodes@.subrange(k as int, n as int).to_set(),
            pred == pathfinder_allocates(paths@, active_nodes@, all_nodes@),
            forall|m: int| k <= m < n ==> flags@[m] == pred(m),
        decreases k,
    {
        k = k - 1;
        let id = all_nodes[k];
        let is_last = !later.contains(id);
        proof {
            assert forall|j: int| k < j < n implies all_nodes@.subrange(k + 1, n as int).contains(#[trigger] all_nodes@[j]) by {
                assert(all_nodes@.subrange(k + 1, n as int)[j - k - 1] == all_nodes@[j]);
            }
            let rest = all_nodes@.subrange(k + 1, n as int);
            if rest.contains(id) {
                let j = choose|j: int| 0 <= j < rest.len() && #[trigger] rest[j] == id;
                assert(all_nodes@[k + 1 + j] == id);
            }
            assert(is_last == last_with_id(all_nodes@, k as int));
            assert(active_nodes@.to_set().contains(id) == active_nodes@.contains(id));
        }
        let hit = on_path.contains(id) && !active.contains(id) && is_last;
        flags.set(k, hit);
        later.insert(id);
        proof {
            assert(all_nodes@.subrange(k as int, n as int) == all_nodes@.subrange(k + 1, n as int).insert(0, id));
            assert(all_nodes@.subrange(k as int, n as int).to_set() =~= all_nodes@.subrange(k + 1, n as int).to_set().insert(id)) by {
                let s0 = all_nodes@.subrange(k as int, n as int);
                let s1 = all_nodes@.subrange(k + 1, n as int);
                assert forall|x: NodeId| s0.contains(x) <==> (s1.contains(x) || x == id) by {
                    if s0.contains(x) {
                        let j = choose|j: int| 0 <= j < s0.len() && s0[j] == x;
                        if j > 0 {
                            assert(s1[j - 1] == x);
                        }
                    }
                    if s1.contains(x) {
                        let j = choose|j: int| 0 <= j < s1.len() && s1[j] == x;
                        assert(s0[j + 1] == x);
                    }
                    assert(s0[0] == id);
                }
            }
        }
    }
    let mut picked: Vec<usize> = Vec::new();
    let mut i: usize = 0;
    while i < n
        invariant
            i <= n,
            n == all_nodes@.len(),
            flags@.len() == n,
            forall|m: int| 0 <= m < n ==> flags@[m] == pred(m),
            picks_exactly(picked@, i as int, pred),
        decreases n - i,
    {
        let ghost before = picked@;
        if flags[i] {
            picked.push(i);
        }
        proof {
            lemma_pick_step(before, picked@, i, pred);
        }
        i = i + 1;
    }
    picked
}

/// Where a repair starts: nothing was clicked, or the last clicked node and the
/// allocated nodes to reach from it.
pub enum RepairStart {
    NothingSelected,
    From { most_recent: NodeId, targets: Vec<NodeId> },
}

/// What a repair does once the shortest path from the last clicked node is known.
pub enum RepairAction {
    /// Allocate these nodes and sync the character; the path is sound again.
    Activate { path: Vec<NodeId> },
    /// The path is longer than the step limit: nothing is done.
    TooLong,
    /// No path was found: fall back to a path from the root.
    FallBackToRoot,
}

/// The first step of a repair. With no click in the history, there is nothing to repair
/// and the path is marked sound. Otherwise the repair grows from the last clicked node
/// towards the allocated nodes other than that node itself.
pub fn begin_path_repair(
    history: &MouseSelecetedNodeHistory,
    active_nodes: &Vec<NodeId>,
    repair: &mut PathRepairRequired,
) -> (start: RepairStart)
    ensures
        history.0@.len() == 0 ==> start is NothingSelected && final(repair).0 == false,
        history.0@.len() > 0 ==> final(repair).0 == old(repair).0 && (start matches RepairStart::From {
            most_recent,
            targets,
        } && most_recent == history.0@.last() && targets@ == active_nodes@.filter(
            |id: NodeId| id != history.0@.last(),
        )),
{
    let n = history.0.len();
    if n == 0 {
        repair.set_unrequired();
        return RepairStart::NothingSelected;
    }
    let most_recent = history.0[n - 1];
    let ghost p = |id: NodeId| id != most_recent;
    let mut targets: Vec<NodeId> = Vec::new();
    let mut i: usize = 0;
    while i < active_nodes.len()
        invariant
            i <= active_nodes@.len(),
            p == (|id: NodeId| id != most_recent),
            targets@ == active_nodes@.subrange(0, i as int).filter(p),
        decreases active_nodes@.len() - i,
    {
        let id = active_nodes[i];
        proof {
            assert(active_nodes@.subrange(0, i + 1) == active_nodes@.subrange(0, i as int).push(id));
            active_nodes@.subrange(0, i as int).lemma_filter_push(id, p);
        }
        if id != most_recent {
            targets.push(id);
        }
        i = i + 1;
    }
    assert(active_nodes@.subrange(0, active_nodes@.len() as int) == active_nodes@);
    assert(most_recent == history.0@.last());
    assert(p =~= (|id: NodeId| id != history.0@.last()));
    RepairStart::From { most_recent, targets }
}

/// The second step of a repair, given the shortest path the tree found from the last
/// clicked node to one of the targets (`None` when none was found, read as an empty
/// path). A path longer than `step_limit` is refused and nothing changes; any other
/// non-empty path is allocated, the path is marked sound and the character synced; an
/// empty one sends the repair to the root.
pub fn finish_path_repair(
    shortest: Option<Vec<NodeId>>,
    step_limit: usize,
    repair: &mut PathRepairRequired,
) -> (action: RepairAction)
    ensures
        ({
            let path: Seq<NodeId> = match shortest {
                Some(p) => p@,
                None => Seq::empty(),
            };
            &&& path.len() == 0 ==> action is FallBackToRoot && final(repair).0 == old(repair).0
            &&& path.len() > step_limit ==> action is TooLong && final(repair).0 == old(repair).0
            &&& 0 < path.len() <= step_limit ==> (action matches RepairAction::Activate { path: p } && p@
                == path) && final(repair).0 == false
        }),
{
    let path: Vec<NodeId> = match shortest {
        Some(p) => p,
        None => Vec::new(),
    };
    if path.len() == 0 {
        RepairAction::FallBackToRoot
    } else if path.len() > step_limit {
        RepairAction::TooLong
    } else {
        repair.set_unrequired();
        RepairAction::Activate { path }
    }
}

/// The last step of a repair that found no path: the path from the root to the
/// allocated nodes is allocated and the repair stays requested. The tree always finds
/// such a path, so `path` is never empty.
pub fn fall_back_to_root(path: &Vec<NodeId>, repair: &mut PathRepairRequired) -> (reqs: Vec<NodeActivationReq>)
    requires
        path@.len() > 0,
    ensures
        activation_ids(reqs@) == path@,
        final(repair).0 == true,
{
    repair.request_path_repair();
    activation_requests(path)
}

/// One activation request per node of `path`, in order.
pub fn activation_requests(path: &Vec<NodeId>) -> (reqs: Vec<NodeActivationReq>)
    ensures
        activation_ids(reqs@) == path@,
{
    let mut reqs: Vec<NodeActivationReq> = Vec::new();
    let mut i: usize = 0;
    while i < path.len()
        invariant
            i <= path@.len(),
            activation_ids(reqs@) == path@.subrange(0, i as int),
        decreases path@.len() - i,
    {
        let ghost before = reqs@;
        reqs.push(NodeActivationReq(path[i]));
        proof {
            before.lemma_push_map_commute(|r: NodeActivationReq| r.0, NodeActivationReq(path@[i as int]));
            assert(path@.subrange(0, i + 1) == path@.subrange(0, i as int).push(path@[i as int]));
        }
        i = i + 1;
    }
    assert(path@.subrange(0, path@.len() as int) == path@);
    reqs
}

/// Whether position `b` holds the first of the shortest paths found among `candidates`.
pub open spec fn is_first_shortest(candidates: Seq<Option<Vec<NodeId>>>, b: int) -> bool {
    &&& 0 <= b < candidates.len()
    &&& candidates[b] is Some
    &&& forall|k: int|
        0 <= k < candidates.len() && #[trigger] candidates[k] is Some ==> candidates[b]->0@.len()
            <= candidates[k]->0@.len()
    &&& forall|k: int|
        0 <= k < b && #[trigger] candidates[k] is Some ==> candidates[b]->0@.len() < candidates[k]->0@.len()
}

/// The positions of the nodes and edges of a previewed path: the (unallocated) nodes on
/// it, and the (unlit) edges with both ends on it.
pub struct VirtualPathPlan {
    pub nodes: Vec<usize>,
    pub edges: Vec<usize>,
}

/// Previews the path to a hovered node. `candidates` holds, for each allocated node,
/// the shortest path the tree found from it to a hovered node, if any; the first of the
/// shortest is chosen (`None` when none was found, and nothing is marked). The
/// unallocated nodes on it, and the unlit edges with both ends on it, become members
/// of the virtual path.
pub fn populate_virtual_path(
    candidates: &Vec<Option<Vec<NodeId>>>,
    nodes: &Vec<NodeId>,
    edges: &Vec<EdgeMarker>,
) -> (plan: Option<VirtualPathPlan>)
    ensures
        plan is None <==> forall|k: int| 0 <= k < candidates@.len() ==> #[trigger] candidates@[k] is None,
        plan matches Some(pl) ==> exists|b: int|
            #![trigger candidates@[b]]
            is_first_shortest(candidates@, b) && picks_exactly(
                pl.nodes@,
                nodes@.len() as int,
                |i: int| candidates@[b]->0@.contains(nodes@[i]),
            ) && picks_exactly(
                pl.edges@,
                edges@.len() as int,
                |i: int| candidates@[b]->0@.contains(edges@[i].0) && candidates@[b]->0@.contains(edges@[i].1),
            ),
{
    let mut best: Option<usize> = None;
    let mut k: usize = 0;
    while k < candidates.len()
        invariant
            k <= candidates@.len(),
            best is None <==> forall|m: int| 0 <= m < k ==> #[trigger] candidates@[m] is None,
            best matches Some(b) ==> b < k && is_first_shortest(candidates@.subrange(0, k as int), b as int),
        decreases candidates@.len() - k,
    {
        let ghost prefix = candidates@.subrange(0, k as int);
        let ghost next = candidates@.subrange(0, k + 1);
        match &candidates[k] {
            None => {},
            Some(path) => {
                let better = match best {
                    None => true,
                    Some(b) => match &candidates[b] {
                        Some(current) => path.len() < current.len(),
                        None => false,
                    },
                };
                if better {
                    best = Some(k);
                }
            },
        }
        proof {
            assert forall|m: int| 0 <= m < k implies next[m] == prefix[m] by {}
            assert(next[k as int] == candidates@[k as int]);
            if let Some(b) = best {
                assert(is_first_shortest(next, b as int));
            }
        }
        k = k + 1;
    }
    proof {
        assert(candidates@.subrange(0, candidates@.len() as int) == candidates@);
    }
    match best {
        None => None,
        Some(b) => {
            let path: &Vec<NodeId> = match &candidates[b] {
                Some(p) => p,
                None => {
                    return None;
                },
            };
            let ghost on_path = |i: int| path@.contains(nodes@[i]);
            let mut node_picks: Vec<usize> = Vec::new();
            let mut i: usize = 0;
            while i < nodes.len()
                invariant
                    i <= nodes@.len(),
                    on_path == (|i: int| path@.contains(nodes@[i])),
                    picks_exactly(node_picks@, i as int, on_path),
                decreases nodes@.len() - i,
            {
                let hit = ids_contain(path, nodes[i]);
                let ghost before = node_picks@;
                if hit {
                    node_picks.push(i);
                }
                proof {
                    lemma_pick_step(before, node_picks@, i, on_path);
                }
                i = i + 1;
            }
            let ghost joins_path = |i: int| path@.contains(edges@[i].0) && path@.contains(edges@[i].1);
            let mut edge_picks: Vec<usize> = Vec::new();
            let mut j: usize = 0;
            while j < edges.len()
                invariant
                    j <= edges@.len(),
                    joins_path == (|i: int| path@.contains(edges@[i].0) && path@.contains(edges@[i].1)),
                    picks_exactly(edge_picks@, j as int, joins_path),
                decreases edges@.len() - j,
            {
                let (start, end) = edges[j].as_tuple();
                let hit = ids_contain(path, start) && ids_contain(path, end);
                let ghost before = edge_picks@;
                if hit {
                    edge_picks.push(j);
                }
                proof {
                    lemma_pick_step(before, edge_picks@, j, joins_path);
                }
                j = j + 1;
            }
            proof {
                assert(candidates@[b as int]->0 == *path);
            }
            Some(VirtualPathPlan { nodes: node_picks, edges: edge_picks })
        },
    }
}

/// What a clear does to the tree: the positions of the nodes other than the start node
/// (which lose their manual highlight and virtual-path membership and are asked to be
/// unallocated), and the request to put out every edge (which also lose theirs).
pub struct ClearPlan {
    pub nodes: Vec<usize>,
    pub node_reqs: Vec<NodeDeactivationReq>,
    pub edge_reqs: Vec<EdgeDeactivationReq>,
}

/// Clears everything: the path is marked sound, the click history and the character's
/// allocation are emptied, and every node but the start node, and every edge, is reset.
pub fn clear(
    nodes: &Vec<NodeId>,
    edges: &Vec<EdgeMarker>,
    active: &mut ActiveCharacter,
    repair: &mut PathRepairRequired,
    history: &mut MouseSelecetedNodeHistory,
) -> (plan: ClearPlan)
    ensures
        final(repair).0 == false,
        final(history).0@.len() == 0,
        final(active).character.activated_node_ids.order().len() == 0,
        final(active).character.starting_node == old(active).character.starting_node,
        picks_exactly(plan.nodes@, nodes@.len() as int, |i: int| nodes@[i] != old(active).character.starting_node),
        deactivation_ids(plan.node_reqs@) == nodes@.filter(|id: NodeId| id != old(active).character.starting_node),
        plan.edge_reqs@ == edges@.map_values(|e: EdgeMarker| deactivation_of(e)),
{
    repair.set_unrequired();
    history.0.clear();
    active.character.activated_node_ids.clear();
    let start = active.character.starting_node;
    let ghost keep = |i: int| nodes@[i] != start;
    let ghost p = |id: NodeId| id != start;
    let mut picks: Vec<usize> = Vec::new();
    let mut node_reqs: Vec<NodeDeactivationReq> = Vec::new();
    let mut i: usize = 0;
    while i < nodes.len()
        invariant
            i <= nodes@.len(),
            keep == (|i: int| nodes@[i] != start),
            p == (|id: NodeId| id != start),
            picks_exactly(picks@, i as int, keep),
            deactivation_ids(node_reqs@) == nodes@.subrange(0, i as int).filter(p),
        decreases nodes@.len() - i,
    {
        let id = nodes[i];
        let ghost before = picks@;
        let ghost before_reqs = node_reqs@;
        proof {
            assert(nodes@.subrange(0, i + 1) == nodes@.subrange(0, i as int).push(id));
            nodes@.subrange(0, i as int).lemma_filter_push(id, p);
        }
        if id != start {
            picks.push(i);
            node_reqs.push(NodeDeactivationReq(id));
            proof {
                before_reqs.lemma_push_map_commute(|r: NodeDeactivationReq| r.0, NodeDeactivationReq(id));
            }
        }
        proof {
            lemma_pick_step(before, picks@, i, keep);
        }
        i = i + 1;
    }
    assert(nodes@.subrange(0, nodes@.len() as int) == nodes@);
    let mut edge_reqs: Vec<EdgeDeactivationReq> = Vec::new();
    let mut j: usize = 0;
    while j < edges.len()
        invariant
            j <= edges@.len(),
            edge_reqs@ == edges@.subrange(0, j as int).map_values(|e: EdgeMarker| deactivation_of(e)),
        decreases edges@.len() - j,
    {
        let (s, e) = edges[j].as_tuple();
        let ghost before = edge_reqs@;
        edge_reqs.push(EdgeDeactivationReq(s, e));
        proof {
            assert(edges@.subrange(0, j + 1) == edges@.subrange(0, j as int).push(edges@[j as int]));
            edges@.subrange(0, j as int).lemma_push_map_commute(|e: EdgeMarker| deactivation_of(e), edges@[j as int]);
        }
        j = j + 1;
    }
    assert(edges@.subrange(0, edges@.len() as int) == edges@);
    ClearPlan { nodes: picks, node_reqs, edge_reqs }
}

} // verus!
