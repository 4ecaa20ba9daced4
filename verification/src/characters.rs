use vstd::prelude::*;

use crate::components::NodeId;
use crate::consts::DEFAULT_SAVE_PATH;
use crate::events::{NodeActivationReq, NodeDeactivationReq, OverrideCharacterNodesReq, SaveCharacterAsReq};
use crate::nodes::ids_contain;
use crate::resources::{LastSaveLocation, RootNode};
use crate::text::str_eq;

verus! {

/// The nodes a character has allocated: a set, kept in the order the nodes came in.
pub struct ActiveNodes {
    ids: Vec<NodeId>,
}

impl ActiveNodes {
    #[verifier::type_invariant]
    spec fn wf(self) -> bool {
        self.ids@.no_duplicates()
    }

    /// The allocated nodes, in the order they came in.
    pub closed spec fn order(self) -> Seq<NodeId> {
        self.ids@
    }

    /// No node is allocated.
    pub fn new() -> (nodes: ActiveNodes)
        ensures
            nodes.order().len() == 0,
    {
        ActiveNodes { ids: Vec::new() }
    }

    /// The nodes of `ids`, each once, in the order of their first occurrence.
    pub fn from_ids(ids: &Vec<NodeId>) -> (nodes: ActiveNodes)
        ensures
            nodes.order().to_set() == ids@.to_set(),
            nodes.order().no_duplicates(),
    {
        let mut nodes = ActiveNodes::new();
        let mut i: usize = 0;
        proof {
            assert(nodes.order().to_set() =~= ids@.subrange(0, 0).to_set());
        }
        while i < ids.len()
            invariant
                i <= ids@.len(),
                nodes.order().to_set() == ids@.subrange(0, i as int).to_set(),
            decreases ids@.len() - i,
        {
            nodes.insert(ids[i]);
            proof {
                assert(ids@.subrange(0, i + 1) == ids@.subrange(0, i as int).push(ids@[i as int]));
                ids@.subrange(0, i as int).lemma_push_to_set_commute(ids@[i as int]);
            }
            i = i + 1;
        }
        proof {
            use_type_invariant(&nodes);
            assert(ids@.subrange(0, ids@.len() as int) == ids@);
        }
        nodes
    }

    /// Allocates `id`; returns whether it was not allocated before.
    pub fn insert(&mut self, id: NodeId) -> (fresh: bool)
        ensures
            final(self).order().to_set() == old(self).order().to_set().insert(id),
            fresh == !old(self).order().contains(id),
            fresh ==> final(self).order() == old(self).order().push(id),
            !fresh ==> final(self).order() == old(self).order(),
    {
        proof {
            use_type_invariant(&*self);
        }
        if ids_contain(&self.ids, id) {
            proof {
                assert(self.ids@.to_set() =~= self.ids@.to_set().insert(id));
            }
            false
        } else {
            let ghost before = self.ids@;
            let mut ids = self.ids.clone();
            assert(ids@ =~= before);
            ids.push(id);
            proof {
                before.lemma_push_to_set_commute(id);
                assert forall|a: int, b: int| 0 <= a < b < ids@.len() implies ids@[a] != ids@[b] by {
                    if b == before.len() {
                        assert(before[a] == ids@[a]);
                    }
                }
            }
            self.ids = ids;
            true
        }
    }

    /// Whether `id` is allocated.
    pub fn contains(&self, id: NodeId) -> (found: bool)
        ensures
            found == self.order().contains(id),
    {
        ids_contain(&self.ids, id)
    }

    /// Unallocates every node.
    pub fn clear(&mut self)
        ensures
            final(self).order().len() == 0,
    {
        self.ids = Vec::new();
    }

    /// The number of allocated nodes.
    pub fn len(&self) -> (n: usize)
        ensures
            n == self.order().len(),
            n == self.order().to_set().len(),
    {
        proof {
            use_type_invariant(&*self);
            self.ids@.unique_seq_to_set();
        }
        self.ids.len()
    }

    /// The allocated nodes, in the order they came in, each once.
    pub fn ids(&self) -> (ids: &Vec<NodeId>)
        ensures
            ids@ == self.order(),
            ids@.no_duplicates(),
    {
        proof {
            use_type_invariant(&*self);
        }
        &self.ids
    }
}

/// A character: class, name, allocated nodes, creation date, level, quest points and start node.
pub struct Character {
    pub character_class: String,
    pub name: String,
    pub activated_node_ids: ActiveNodes,
    pub date_created: String,
    pub level: u8,
    pub quest_passive_skills: u8,
    pub starting_node: NodeId,
}

/// The character being edited.
pub struct ActiveCharacter {
    pub character: Character,
}

/// The events of one override of a character's allocation: the nodes to allocate and
/// the previously allocated nodes to unallocate.
pub struct CharacterOverride {
    pub activate: Vec<NodeActivationReq>,
    pub deactivate: Vec<NodeDeactivationReq>,
}

/// The node identifiers of a list of activation requests.
pub open spec fn activation_ids(reqs: Seq<NodeActivationReq>) -> Seq<NodeId> {
    reqs.map_values(|r: NodeActivationReq| r.0)
}

/// The node identifiers of a list of deactivation requests.
pub open spec fn deactivation_ids(reqs: Seq<NodeDeactivationReq>) -> Seq<NodeId> {
    reqs.map_values(|r: NodeDeactivationReq| r.0)
}

/// The previously allocated nodes that a new allocation `new_ids` leaves out, in order.
pub open spec fn dropped(previous: Seq<NodeId>, new_ids: Seq<NodeId>) -> Seq<NodeId> {
    previous.filter(|id: NodeId| !new_ids.contains(id))
}

fn activations_of(ids: &Vec<NodeId>) -> (reqs: Vec<NodeActivationReq>)
    ensures
        activation_ids(reqs@) == ids@,
{
    let mut reqs: Vec<NodeActivationReq> = Vec::new();
    let mut i: usize = 0;
    while i < ids.len()
        invariant
            i <= ids@.len(),
            activation_ids(reqs@) == ids@.subrange(0, i as int),
        decreases ids@.len() - i,
    {
        let ghost before = reqs@;
        reqs.push(NodeActivationReq(ids[i]));
        proof {
            before.lemma_push_map_commute(|r: NodeActivationReq| r.0, NodeActivationReq(ids@[i as int]));
            assert(ids@.subrange(0, i + 1) == ids@.subrange(0, i as int).push(ids@[i as int]));
            assert(activation_ids(reqs@) =~= ids@.subrange(0, i + 1));
        }
        i = i + 1;
    }
    assert(ids@.subrange(0, ids@.len() as int) == ids@);
    reqs
}

fn deactivations_of_dropped(previous: &Vec<NodeId>, kept: &ActiveNodes) -> (reqs: Vec<NodeDeactivationReq>)
    ensures
        deactivation_ids(reqs@) == dropped(previous@, kept.order()),
{
    let ghost p = |id: NodeId| !kept.order().contains(id);
    let mut reqs: Vec<NodeDeactivationReq> = Vec::new();
    let mut i: usize = 0;
    while i < previous.len()
        invariant
            i <= previous@.len(),
            p == (|id: NodeId| !kept.order().contains(id)),
            deactivation_ids(reqs@) == previous@.subrange(0, i as int).filter(p),
        decreases previous@.len() - i,
    {
        let id = previous[i];
        proof {
            assert(previous@.subrange(0, i + 1) == previous@.subrange(0, i as int).push(id));
            previous@.subrange(0, i as int).lemma_filter_push(id, p);
        }
        if !kept.contains(id) {
            reqs.push(NodeDeactivationReq(id));
            proof {
                assert(deactivation_ids(reqs@) =~= previous@.subrange(0, i as int).filter(p).push(id));
            }
        } else {
            proof {
                assert(deactivation_ids(reqs@) =~= previous@.subrange(0, i as int).filter(p));
            }
        }
        i = i + 1;
    }
    assert(previous@.subrange(0, previous@.len() as int) == previous@);
    reqs
}

/// Replaces the character's allocation by each requested list in turn. For each request:
/// every node of the list is asked to be allocated, and every node allocated before the
/// first request that the list leaves out is asked to be unallocated.
pub fn override_char(active: &mut ActiveCharacter, reqs: &Vec<OverrideCharacterNodesReq>) -> (overrides:
    Vec<CharacterOverride>)
    ensures
        overrides@.len() == reqs@.len(),
        forall|k: int|
            #![trigger overrides@[k]]
            0 <= k < reqs@.len() ==> {
                &&& activation_ids(overrides@[k].activate@).to_set() == reqs@[k].0@.to_set()
                &&& activation_ids(overrides@[k].activate@).no_duplicates()
                &&& deactivation_ids(overrides@[k].deactivate@) == dropped(
                    old(active).character.activated_node_ids.order(),
                    reqs@[k].0@,
                )
            },
        reqs@.len() == 0 ==> final(active).character.activated_node_ids.order() == old(active).character.activated_node_ids.order(),
        reqs@.len() > 0 ==> final(active).character.activated_node_ids.order().to_set()
            == reqs@.last().0@.to_set(),
        final(active).character.starting_node == old(active).character.starting_node,
{
    let previous: Vec<NodeId> = active.character.activated_node_ids.ids().clone();
    proof {
        assert(previous@ =~= old(active).character.activated_node_ids.order());
    }
    let mut overrides: Vec<CharacterOverride> = Vec::new();
    let mut i: usize = 0;
    while i < reqs.len()
        invariant
            i <= reqs@.len(),
            previous@ == old(active).character.activated_node_ids.order(),
            active.character.starting_node == old(active).character.starting_node,
            overrides@.len() == i,
            i == 0 ==> active.character.activated_node_ids.order() == old(active).character.activated_node_ids.order(),
            i > 0 ==> active.character.activated_node_ids.order().to_set() == reqs@[i - 1].0@.to_set(),
            forall|k: int|
                #![trigger overrides@[k]]
                0 <= k < i ==> {
                    &&& activation_ids(overrides@[k].activate@).to_set() == reqs@[k].0@.to_set()
                    &&& activation_ids(overrides@[k].activate@).no_duplicates()
                    &&& deactivation_ids(overrides@[k].deactivate@) == dropped(
                        old(active).character.activated_node_ids.order(),
                        reqs@[k].0@,
                    )
                },
        decreases reqs@.len() - i,
    {
        let new_nodes = ActiveNodes::from_ids(&reqs[i].0);
        let deactivate = deactivations_of_dropped(&previous, &new_nodes);
        let activate = activations_of(new_nodes.ids());
        proof {
            assert forall|id: NodeId| new_nodes.order().contains(id) == reqs@[i as int].0@.contains(id) by {
                assert(new_nodes.order().to_set().contains(id) == reqs@[i as int].0@.to_set().contains(id));
            }
            assert(dropped(previous@, new_nodes.order()) =~= dropped(previous@, reqs@[i as int].0@)) by {
                assert((|id: NodeId| !new_nodes.order().contains(id)) =~= (|id: NodeId| !reqs@[i as int].0@.contains(id)));
            }
        }
        active.character.activated_node_ids = new_nodes;
        overrides.push(CharacterOverride { activate, deactivate });
        i = i + 1;
    }
    overrides
}

/// Whether the tree shows as many allocated nodes as the character holds.
pub fn has_been_updated(active: &ActiveCharacter, actual_active_count: usize) -> (same: bool)
    ensures
        same == (actual_active_count == active.character.activated_node_ids.order().len()),
{
    actual_active_count == active.character.activated_node_ids.len()
}

/// Makes the character's start node the root and asks for it, then for every allocated
/// node in turn, to be allocated on the tree.
pub fn activate_starting_nodes(active: &ActiveCharacter, root: &mut RootNode) -> (reqs: Vec<NodeActivationReq>)
    ensures
        final(root).0 == Some(active.character.starting_node),
        activation_ids(reqs@) == seq![active.character.starting_node] + active.character.activated_node_ids.order(),
{
    root.0 = Some(active.character.starting_node);
    let mut reqs: Vec<NodeActivationReq> = Vec::new();
    reqs.push(NodeActivationReq(active.character.starting_node));
    let mut rest = activations_of(active.character.activated_node_ids.ids());
    reqs.append(&mut rest);
    proof {
        assert(activation_ids(reqs@) =~= seq![active.character.starting_node] + active.character.activated_node_ids.order());
    }
    reqs
}

/// The same as `activate_starting_nodes`, under the name that says what it is used for.
pub fn update_active_from_character(active: &ActiveCharacter, root: &mut RootNode) -> (reqs: Vec<
    NodeActivationReq,
>)
    ensures
        final(root).0 == Some(active.character.starting_node),
        activation_ids(reqs@) == seq![active.character.starting_node] + active.character.activated_node_ids.order(),
{
    activate_starting_nodes(active, root)
}

/// Takes the allocation from the tree: the nodes shown allocated, with the start node added.
pub fn world_to_active_character(active: &mut ActiveCharacter, actuals: &Vec<NodeId>)
    ensures
        final(active).character.activated_node_ids.order().to_set() == actuals@.to_set().insert(
            old(active).character.starting_node,
        ),
        final(active).character.starting_node == old(active).character.starting_node,
{
    let start = active.character.starting_node;
    let mut nodes = ActiveNodes::from_ids(actuals);
    nodes.insert(start);
    active.character.activated_node_ids = nodes;
}

/// Whether row `k` of a start table is the first one for `class`.
pub open spec fn first_class_at(starts: Seq<(String, NodeId)>, class: Seq<char>, k: int) -> bool {
    &&& 0 <= k < starts.len()
    &&& starts[k].0@ == class
    &&& forall|j: int| 0 <= j < k ==> #[trigger] starts[j].0@ != class
}

/// The start node of `class` in the table `starts` of class names and start nodes.
pub fn class_start_node(starts: &Vec<(String, NodeId)>, class: &str) -> (start: NodeId)
    requires
        exists|k: int| 0 <= k < starts@.len() && #[trigger] starts@[k].0@ == class@,
    ensures
        exists|k: int| #[trigger] first_class_at(starts@, class@, k) && start == starts@[k].1,
{
    let mut i: usize = 0;
    while i < starts.len()
        invariant
            i <= starts@.len(),
            forall|k: int| 0 <= k < i ==> #[trigger] starts@[k].0@ != class@,
            exists|k: int| 0 <= k < starts@.len() && #[trigger] starts@[k].0@ == class@,
        decreases starts@.len() - i,
    {
        if str_eq(starts[i].0.as_str(), class) {
            assert(first_class_at(starts@, class@, i as int));
            return starts[i].1;
        }
        i = i + 1;
    }
    proof {
        let k = choose|k: int| 0 <= k < starts@.len() && #[trigger] starts@[k].0@ == class@;
        assert(starts@[k].0@ != class@);
    }
    0
}

/// Sets the character's start node, and the root, to the start node of its class in
/// `starts` (the table of class names and start nodes). The class must be in the table.
pub fn set_starting_node_based_on_character_class(
    active: &mut ActiveCharacter,
    root: &mut RootNode,
    starts: &Vec<(String, NodeId)>,
)
    requires
        exists|k: int| 0 <= k < starts@.len() && #[trigger] starts@[k].0@ == old(active).character.character_class@,
    ensures
        exists|k: int|
            #[trigger] first_class_at(starts@, old(active).character.character_class@, k)
                && final(active).character.starting_node == starts@[k].1,
        final(root).0 == Some(final(active).character.starting_node),
        final(active).character.character_class@ == old(active).character.character_class@,
        final(active).character.activated_node_ids.order() == old(active).character.activated_node_ids.order(),
{
    let new = class_start_node(starts, active.character.character_class.as_str());
    active.character.starting_node = new;
    root.0 = Some(new);
}

/// Takes the class of the last request, if any. A change of class clears everything (a
/// path is not kept across classes): the result says whether a clear-all is to be sent.
/// The root moves to the new class's start node in `set_starting_node_based_on_character_class`,
/// which runs on the same requests.
pub fn handle_class_change(active: &mut ActiveCharacter, classes: &Vec<String>) -> (clear_all: bool)
    ensures
        clear_all == (classes@.len() > 0),
        classes@.len() == 0 ==> final(active).character.character_class@ == old(active).character.character_class@,
        classes@.len() > 0 ==> final(active).character.character_class@ == classes@.last()@,
        final(active).character.starting_node == old(active).character.starting_node,
        final(active).character.activated_node_ids.order() == old(active).character.activated_node_ids.order(),
{
    let n = classes.len();
    if n > 0 {
        active.character.character_class = classes[n - 1].clone();
        true
    } else {
        false
    }
}

/// Before a save: takes the allocation from the tree and sets the level to the number of
/// allocated nodes (kept to its low byte, as a `u8` cast does).
pub fn sync_for_save(active: &mut ActiveCharacter, active_nodes: &Vec<NodeId>)
    ensures
        final(active).character.activated_node_ids.order().to_set() == active_nodes@.to_set(),
        final(active).character.level == (active_nodes@.to_set().len() % 256) as u8,
        final(active).character.starting_node == old(active).character.starting_node,
{
    active.character.activated_node_ids = ActiveNodes::from_ids(active_nodes);
    let n = active.character.activated_node_ids.len();
    active.character.level = (n % 256) as u8;
}

/// Where to save: the path of the last "save as" request, which is remembered; else,
/// when a plain save was asked for, the remembered path; else the default path.
pub fn save_location(save_as: &Vec<SaveCharacterAsReq>, save_requested: bool, last: &mut LastSaveLocation) -> (path:
    String)
    ensures
        save_as@.len() > 0 ==> path@ == save_as@.last().0@ && final(last).0@ == save_as@.last().0@,
        save_as@.len() == 0 && save_requested ==> path@ == old(last).0@ && final(last).0@ == old(last).0@,
        save_as@.len() == 0 && !save_requested ==> path@ == DEFAULT_SAVE_PATH@ && final(last).0@ == old(last).0@,
{
    let n = save_as.len();
    if n > 0 {
        let p = save_as[n - 1].0.clone();
        last.0 = p.clone();
        p
    } else if save_requested {
        last.0.clone()
    } else {
        String::from_str(DEFAULT_SAVE_PATH)
    }
}

/// The formats a character file can be read from.
#[derive(Debug, PartialEq, Eq)]
pub enum LoadFormat {
    /// This tool's own TOML format.
    Toml,
    /// Path of Building's XML export.
    Xml,
    /// An extension that neither reader takes.
    Unsupported(String),
    /// A path without an extension.
    NoExtension,
}

/// Which reader a character file goes to, by its extension.
pub fn load_format(extension: Option<&str>) -> (format: LoadFormat)
    ensures
        extension is None ==> format == LoadFormat::NoExtension,
        extension matches Some(e) ==> (if e@ == "toml"@ {
            format == LoadFormat::Toml
        } else if e@ == "xml"@ {
            format == LoadFormat::Xml
        } else {
            format matches LoadFormat::Unsupported(x) && x@ == e@
        }),
{
    match extension {
        None => LoadFormat::NoExtension,
        Some(e) => {
            if str_eq(e, "toml") {
                LoadFormat::Toml
            } else if str_eq(e, "xml") {
                LoadFormat::Xml
            } else {
                LoadFormat::Unsupported(String::from_str(e))
            }
        },
    }
}

/// The last node of `candidates` that is allocated, if any.
pub open spec fn last_allocated(candidates: Seq<NodeId>, allocated: Seq<NodeId>) -> Option<NodeId>
    decreases candidates.len(),
{
    if candidates.len() == 0 {
        None
    } else if allocated.contains(candidates.last()) {
        Some(candidates.last())
    } else {
        last_allocated(candidates.drop_last(), allocated)
    }
}

/// After a load: the root becomes the last of the level-one nodes (`level_one`) that the
/// character has allocated; it stays as it was when there is none.
pub fn reset_root_after_load(active: &ActiveCharacter, level_one: &Vec<NodeId>, root: &mut RootNode)
    ensures
        last_allocated(level_one@, active.character.activated_node_ids.order()) matches Some(v) ==> final(root).0
            == Some(v),
        last_allocated(level_one@, active.character.activated_node_ids.order()) is None ==> final(root).0 == old(root).0,
{
    let ghost allocated = active.character.activated_node_ids.order();
    let mut i: usize = 0;
    while i < level_one.len()
        invariant
            i <= level_one@.len(),
            allocated == active.character.activated_node_ids.order(),
            last_allocated(level_one@.subrange(0, i as int), allocated) matches Some(v) ==> root.0 == Some(v),
            last_allocated(level_one@.subrange(0, i as int), allocated) is None ==> root.0 == old(root).0,
        decreases level_one@.len() - i,
    {
        let v = level_one[i];
        proof {
            assert(level_one@.subrange(0, i + 1).drop_last() == level_one@.subrange(0, i as int));
            assert(level_one@.subrange(0, i + 1).last() == v);
        }
        if active.character.activated_node_ids.contains(v) {
            root.0 = Some(v);
        }
        i = i + 1;
    }
    assert(level_one@.subrange(0, level_one@.len() as int) == level_one@);
}

/// For every node on the tree, in order: asks for it to be allocated when the character
/// holds it, and unallocated otherwise.
pub fn active_character_to_world(active: &ActiveCharacter, nodes: &Vec<NodeId>) -> (reqs: (
    Vec<NodeActivationReq>,
    Vec<NodeDeactivationReq>,
))
    ensures
        activation_ids(reqs.0@) == nodes@.filter(|id: NodeId| active.character.activated_node_ids.order().contains(id)),
        deactivation_ids(reqs.1@) == nodes@.filter(|id: NodeId| !active.character.activated_node_ids.order().contains(id)),
{
    let ghost held = |id: NodeId| active.character.activated_node_ids.order().contains(id);
    let ghost not_held = |id: NodeId| !active.character.activated_node_ids.order().contains(id);
    let mut acts: Vec<NodeActivationReq> = Vec::new();
    let mut deacts: Vec<NodeDeactivationReq> = Vec::new();
    let mut i: usize = 0;
    while i < nodes.len()
        invariant
            i <= nodes@.len(),
            held == (|id: NodeId| active.character.activated_node_ids.order().contains(id)),
            not_held == (|id: NodeId| !active.character.activated_node_ids.order().contains(id)),
            activation_ids(acts@) == nodes@.subrange(0, i as int).filter(held),
            deactivation_ids(deacts@) == nodes@.subrange(0, i as int).filter(not_held),
        decreases nodes@.len() - i,
    {
        let id = nodes[i];
        proof {
            assert(nodes@.subrange(0, i + 1) == nodes@.subrange(0, i as int).push(id));
            nodes@.subrange(0, i as int).lemma_filter_push(id, held);
            nodes@.subrange(0, i as int).lemma_filter_push(id, not_held);
        }
        if active.character.activated_node_ids.contains(id) {
            acts.push(NodeActivationReq(id));
            proof {
                assert(activation_ids(acts@) =~= nodes@.subrange(0, i as int).filter(held).push(id));
            }
        } else {
            deacts.push(NodeDeactivationReq(id));
            proof {
                assert(deactivation_ids(deacts@) =~= nodes@.subrange(0, i as int).filter(not_held).push(id));
            }
        }
        i = i + 1;
    }
    assert(nodes@.subrange(0, nodes@.len() as int) == nodes@);
    (acts, deacts)
}

} // verus!
