use vstd::prelude::*;

use crate::characters::{class_start_node, first_class_at, ActiveCharacter, ActiveNodes};
use crate::components::NodeId;
use crate::resources::{JobStatus, Optimiser, PathRepairRequired};
use crate::node_set::{lemma_pick_step, picks_exactly};
use crate::text::{
    append_decimal, contains_text, decimal_text, lowercase, lowercase_of, sorted_distinct, str_contains, str_eq,
    strictly_ascending, texts,
};

verus! {

/// A class picked in the side panel: the character takes the class, loses its allocation,
/// starts from the class's start node (from `starts`), and the path is to be repaired.
/// Everything else on the tree is then cleared.
pub fn change_class(
    active: &mut ActiveCharacter,
    new_class: String,
    starts: &Vec<(String, NodeId)>,
    repair: &mut PathRepairRequired,
)
    requires
        exists|k: int| 0 <= k < starts@.len() && #[trigger] starts@[k].0@ == new_class@,
    ensures
        final(active).character.character_class@ == new_class@,
        final(active).character.activated_node_ids.order().len() == 0,
        exists|k: int|
            #[trigger] first_class_at(starts@, new_class@, k) && final(active).character.starting_node == starts@[k].1,
        final(repair).0 == true,
{
    let start = class_start_node(starts, new_class.as_str());
    active.character.character_class = new_class;
    active.character.activated_node_ids.clear();
    active.character.starting_node = start;
    repair.request_path_repair();
}

/// The colour of an attribute node's label in the side panel.
#[derive(Clone, Copy, Debug, PartialEq, Eq, Structural)]
pub enum AttributeColour {
    Green,
    Red,
    Blue,
    White,
}

/// The colour of a label by the lower-case form of its name: green for dexterity, red
/// for strength, blue for intelligence (checked in that order), white otherwise.
pub open spec fn attribute_colour_of(lower: Seq<char>) -> AttributeColour {
    if contains_text(lower, "dexterity"@) {
        AttributeColour::Green
    } else if contains_text(lower, "strength"@) {
        AttributeColour::Red
    } else if contains_text(lower, "intelligence"@) {
        AttributeColour::Blue
    } else {
        AttributeColour::White
    }
}

/// Law: dexterity wins over the other attributes, then strength, then intelligence: a
/// lower-case name that mentions dexterity is green whatever else it mentions; one that
/// mentions strength but not dexterity is red; it is blue only when it mentions
/// intelligence and neither of the others; white when it mentions none.
pub proof fn attribute_colours_follow_their_order(lower: Seq<char>)
    ensures
        contains_text(lower, "dexterity"@) ==> attribute_colour_of(lower) == AttributeColour::Green,
        !contains_text(lower, "dexterity"@) && contains_text(lower, "strength"@) ==> attribute_colour_of(lower)
            == AttributeColour::Red,
        attribute_colour_of(lower) == AttributeColour::Blue <==> (contains_text(lower, "intelligence"@)
            && !contains_text(lower, "dexterity"@) && !contains_text(lower, "strength"@)),
        attribute_colour_of(lower) == AttributeColour::White <==> (!contains_text(lower, "dexterity"@)
            && !contains_text(lower, "strength"@) && !contains_text(lower, "intelligence"@)),
{
}

/// How a node of the allocation is listed: a notable by its name in the plain colour
/// (`None`), any other node by its skill's name in the colour of the attribute it
/// names, read without regard to case.
pub fn label_colour(is_notable: bool, name: &str) -> (colour: Option<AttributeColour>)
    ensures
        is_notable ==> colour is None,
        !is_notable ==> colour == Some(attribute_colour_of(lowercase_of(name@))),
{
    if is_notable {
        return None;
    }
    let lower = lowercase(name);
    Some(attribute_colour_from_lowercase(lower.as_str()))
}

/// The colour of a label whose name, in lower case, is `lower`: green when it names
/// dexterity, else red for strength, else blue for intelligence, else white.
pub fn attribute_colour_from_lowercase(lower: &str) -> (colour: AttributeColour)
    ensures
        colour == attribute_colour_of(lower@),
{
    if str_contains(lower, "dexterity") {
        AttributeColour::Green
    } else if str_contains(lower, "strength") {
        AttributeColour::Red
    } else if str_contains(lower, "intelligence") {
        AttributeColour::Blue
    } else {
        AttributeColour::White
    }
}

/// The identifiers of a path as `Debug` prints a list of them: `[31765, 722]`.
pub open spec fn list_text(ids: Seq<NodeId>) -> Seq<char> {
    seq!['['] + joined(ids) + seq![']']
}

/// The decimal forms of `ids`, separated by `", "`.
pub open spec fn joined(ids: Seq<NodeId>) -> Seq<char>
    decreases ids.len(),
{
    if ids.len() == 0 {
        Seq::empty()
    } else if ids.len() == 1 {
        decimal_text(ids[0] as nat)
    } else {
        joined(ids.drop_last()) + seq![',', ' '] + decimal_text(ids.last() as nat)
    }
}

/// The text put on the clipboard for the allocated path: every allocated node, the
/// start node among them, in order, as a list.
pub fn path_clipboard_text(active_nodes: &Vec<NodeId>) -> (text: String)
    ensures
        text@ == list_text(active_nodes@),
{
    let mut text = String::from_str("[");
    proof {
        reveal_strlit("[");
        reveal_strlit(", ");
        reveal_strlit("]");
    }
    let mut i: usize = 0;
    while i < active_nodes.len()
        invariant
            i <= active_nodes@.len(),
            text@ == seq!['['] + joined(active_nodes@.subrange(0, i as int)),
        decreases active_nodes@.len() - i,
    {
        let id = active_nodes[i];
        let ghost pre = active_nodes@.subrange(0, i as int);
        let ghost next = active_nodes@.subrange(0, i + 1);
        if i > 0 {
            text.append(", ");
        }
        append_decimal(&mut text, id as u64);
        proof {
            assert(next == pre.push(id));
            assert(next.drop_last() == pre);
            if pre.len() == 0 {
                assert(joined(next) == decimal_text(id as nat));
                assert(text@ =~= seq!['['] + joined(next));
            } else {
                reveal_strlit(", ");
                assert(", "@ == seq![',', ' ']);
                assert(joined(next) == joined(pre) + seq![',', ' '] + decimal_text(id as nat));
                assert(text@ =~= seq!['['] + joined(next));
            }
        }
        i = i + 1;
    }
    text.append("]");
    assert(active_nodes@.subrange(0, active_nodes@.len() as int) == active_nodes@);
    text
}

/// The points spent as the side panel heading counts them: one more than the number of
/// nodes shown allocated.
pub fn points_spent(active_count: usize) -> (points: usize)
    requires
        active_count < usize::MAX,
    ensures
        points == active_count + 1,
{
    active_count + 1
}

/// An optimised path chosen: it replaces the character's allocation, and the path is to
/// be repaired.
pub fn adopt_optimised_path(active: &mut ActiveCharacter, path: &Vec<NodeId>, repair: &mut PathRepairRequired)
    ensures
        final(active).character.activated_node_ids.order().to_set() == path@.to_set(),
        final(active).character.starting_node == old(active).character.starting_node,
        final(repair).0 == true,
{
    active.character.activated_node_ids = ActiveNodes::from_ids(path);
    repair.request_path_repair();
}

impl Optimiser {
    /// Takes a request when free: the optimiser becomes busy and `true` is returned, and the
    /// caller then computes the alternative paths. When busy the request is skipped.
    pub fn try_start(&mut self) -> (started: bool)
        ensures
            started == (old(self).status == JobStatus::Available),
            started ==> final(self).status == JobStatus::Busy,
            !started ==> final(self).status == old(self).status,
            final(self).results@ == old(self).results@,
    {
        if self.is_available() {
            self.set_busy();
            true
        } else {
            false
        }
    }

    /// Ends a request: the paths found (`None` when the request was skipped) replace the
    /// results, and the optimiser is free again.
    pub fn finish(&mut self, found: Option<Vec<Vec<NodeId>>>)
        ensures
            final(self).status == JobStatus::Available,
            found matches Some(f) ==> final(self).results@ == f@,
            found is None ==> final(self).results@ == old(self).results@,
    {
        match found {
            Some(f) => {
                self.results = f;
            },
            None => {},
        }
        self.set_available();
    }
}

/// Which stats are toggled in the optimiser panel, by name, held in bevy's hash map
/// (`bevy_utils::HashMap`); held privately, as `NodeSet` is.
#[verifier::external_body]
pub struct SelectionMap {
    inner: bevy_utils::HashMap<String, bool>,
}

/// What a selection map holds.
pub uninterp spec fn selection_map_contents(m: SelectionMap) -> Map<Seq<char>, bool>;

impl View for SelectionMap {
    type V = Map<Seq<char>, bool>;

    open spec fn view(&self) -> Map<Seq<char>, bool> {
        selection_map_contents(*self)
    }
}

/// The selection map that holds nothing.
pub open spec fn no_selections() -> Map<Seq<char>, bool> {
    Map::empty()
}

impl SelectionMap {
    /// `bevy_utils::HashMap::default`: a new map holds nothing.
    #[verifier::external_body]
    pub(crate) fn new() -> (fresh: SelectionMap)
        ensures
            selection_map_contents(fresh) == no_selections(),
    {
        SelectionMap { inner: bevy_utils::HashMap::default() }
    }

    /// `HashMap::insert`: sets the toggle of `stat`.
    #[verifier::external_body]
    pub(crate) fn insert(&mut self, stat: String, on: bool)
        ensures
            selection_map_contents(*final(self)) == selection_map_contents(*old(self)).insert(stat@, on),
    {
        self.inner.insert(stat, on);
    }

    /// `HashMap::get`: the toggle of `stat`, if it has one.
    #[verifier::external_body]
    pub(crate) fn get(&self, stat: &str) -> (on: Option<bool>)
        ensures
            on matches Some(b) ==> selection_map_contents(*self).contains_key(stat@) && b == selection_map_contents(
                *self,
            )[stat@],
            on is None ==> !selection_map_contents(*self).contains_key(stat@),
    {
        self.inner.get(stat).copied()
    }

    /// `HashMap::keys`: the names that have a toggle, each once, in the map's own order.
    #[verifier::external_body]
    pub(crate) fn keys(&self) -> (names: Vec<String>)
        ensures
            texts(names@).to_set() == selection_map_contents(*self).dom(),
            texts(names@).no_duplicates(),
    {
        self.inner.keys().cloned().collect()
    }
}

/// The optimiser's toggles: which stat is selected and how many steps a path may change by.
pub struct Toggles {
    pub selections: SelectionMap,
    pub delta: usize,
}

impl Toggles {
    /// No stat toggled, and a change of one step.
    pub fn new() -> (t: Toggles)
        ensures
            t.selections@ == no_selections(),
            t.delta == 1,
    {
        Toggles { selections: SelectionMap::new(), delta: 1 }
    }

    /// Whether `stat` is toggled (`false` when it has never been toggled).
    pub fn is_toggled(&self, stat: &str) -> (on: bool)
        ensures
            on == (self.selections@.contains_key(stat@) && self.selections@[stat@]),
    {
        match self.selections.get(stat) {
            Some(b) => b,
            None => false,
        }
    }

    /// A stat's checkbox changed to `on`: every stat is untoggled, then `stat` takes `on`,
    /// so that at most one stat is toggled at a time.
    pub fn select(&mut self, stat: String, on: bool)
        ensures
            final(self).selections@.dom() == old(self).selections@.dom().insert(stat@),
            final(self).selections@[stat@] == on,
            forall|k: Seq<char>| #[trigger] final(self).selections@.contains_key(k) && k != stat@ ==> !final(self).selections@[k],
            final(self).delta == old(self).delta,
    {
        let names = self.selections.keys();
        let ghost dom = self.selections@.dom();
        let mut i: usize = 0;
        while i < names.len()
            invariant
                i <= names@.len(),
                texts(names@).to_set() == dom,
                self.selections@.dom() == dom,
                forall|m: int| 0 <= m < i ==> !self.selections@[#[trigger] texts(names@)[m]],
                self.delta == old(self).delta,
            decreases names@.len() - i,
        {
            let name = names[i].clone();
            let ghost before = self.selections@;
            self.selections.insert(name, false);
            proof {
                assert(texts(names@)[i as int] == names@[i as int]@);
                assert(dom.contains(names@[i as int]@)) by {
                    assert(texts(names@).contains(names@[i as int]@));
                }
                assert(self.selections@.dom() =~= dom);
                assert forall|m: int| 0 <= m < i + 1 implies !self.selections@[#[trigger] texts(names@)[m]] by {
                    if m < i {
                        if texts(names@)[m] != names@[i as int]@ {
                            assert(self.selections@[texts(names@)[m]] == before[texts(names@)[m]]);
                        }
                    }
                }
            }
            i = i + 1;
        }
        proof {
            assert forall|k: Seq<char>| self.selections@.contains_key(k) implies !self.selections@[k] by {
                assert(texts(names@).to_set().contains(k));
                let m = choose|m: int| 0 <= m < texts(names@).len() && texts(names@)[m] == k;
            }
        }
        self.selections.insert(stat, on);
    }

    /// The toggled stat, if any: the first toggled one in the map's own order.
    pub fn selected(&self) -> (stat: Option<String>)
        ensures
            stat matches Some(s) ==> self.selections@.contains_key(s@) && self.selections@[s@],
            stat is None ==> forall|k: Seq<char>| #[trigger] self.selections@.contains_key(k) ==> !self.selections@[k],
    {
        let names = self.selections.keys();
        let mut i: usize = 0;
        while i < names.len()
            invariant
                i <= names@.len(),
                texts(names@).to_set() == self.selections@.dom(),
                forall|m: int| 0 <= m < i ==> !self.selections@[#[trigger] texts(names@)[m]],
            decreases names@.len() - i,
        {
            let on = self.is_toggled(names[i].as_str());
            assert(texts(names@)[i as int] == names@[i as int]@);
            if on {
                return Some(names[i].clone());
            }
            i = i + 1;
        }
        proof {
            assert forall|k: Seq<char>| #[trigger] self.selections@.contains_key(k) implies !self.selections@[k] by {
                assert(texts(names@).to_set().contains(k));
                let m = choose|m: int| 0 <= m < texts(names@).len() && texts(names@)[m] == k;
            }
        }
        None
    }
}

/// One line of the aggregated stats: a stat's name and the positions of the entries
/// that carry it.
pub struct StatGroup {
    pub name: String,
    pub positions: Vec<usize>,
}

/// Groups the stats of the allocation by name (`names[i]` is the name of entry `i`): one
/// group per distinct name, in ascending order of names, each with the positions of its
/// entries in order. The count of a group is the number of its positions.
pub fn group_stats_by_name(names: &Vec<String>) -> (groups: Vec<StatGroup>)
    ensures
        strictly_ascending(groups@.map_values(|g: StatGroup| g.name@)),
        groups@.map_values(|g: StatGroup| g.name@).to_set() == texts(names@).to_set(),
        forall|k: int|
            0 <= k < groups@.len() ==> picks_exactly(
                #[trigger] groups@[k].positions@,
                names@.len() as int,
                |i: int| names@[i]@ == groups@[k].name@,
            ),
{
    let distinct = sorted_distinct(names);
    let mut groups: Vec<StatGroup> = Vec::new();
    let mut g: usize = 0;
    while g < distinct.len()
        invariant
            g <= distinct@.len(),
            groups@.len() == g,
            strictly_ascending(texts(distinct@)),
            texts(distinct@).to_set() == texts(names@).to_set(),
            forall|k: int| 0 <= k < g ==> (#[trigger] groups@[k]).name@ == distinct@[k]@,
            forall|k: int|
                0 <= k < g ==> picks_exactly(
                    #[trigger] groups@[k].positions@,
                    names@.len() as int,
                    |i: int| names@[i]@ == groups@[k].name@,
                ),
        decreases distinct@.len() - g,
    {
        let name = distinct[g].clone();
        let ghost pred = |i: int| names@[i]@ == name@;
        let mut positions: Vec<usize> = Vec::new();
        let mut i: usize = 0;
        while i < names.len()
            invariant
                i <= names@.len(),
                pred == (|i: int| names@[i]@ == name@),
                picks_exactly(positions@, i as int, pred),
            decreases names@.len() - i,
        {
            let hit = str_eq(names[i].as_str(), name.as_str());
            let ghost before = positions@;
            if hit {
                positions.push(i);
            }
            proof {
                lemma_pick_step(before, positions@, i, pred);
            }
            i = i + 1;
        }
        groups.push(StatGroup { name, positions });
        proof {
            assert(groups@[g as int].name@ == distinct@[g as int]@);
        }
        g = g + 1;
    }
    proof {
        assert(groups@.map_values(|g: StatGroup| g.name@) =~= texts(distinct@));
    }
    groups
}

/// Whether no stat is toggled.
pub open spec fn none_toggled(selections: Map<Seq<char>, bool>) -> bool {
    forall|k: Seq<char>| #[trigger] selections.contains_key(k) ==> !selections[k]
}

/// Whether the optimise button is greyed out: no stat is toggled, or the optimiser is busy.
pub fn optimise_disabled(toggles: &Toggles, optimiser: &Optimiser) -> (disabled: bool)
    ensures
        disabled == (none_toggled(toggles.selections@) || optimiser.status != JobStatus::Available),
{
    let selected = toggles.selected();
    selected.is_none() || !optimiser.is_available()
}

/// The nodes of a proposed path that the character has not allocated yet, in order: those
/// the preview circles.
pub fn path_preview_nodes(path: &Vec<NodeId>, active: &ActiveCharacter) -> (fresh: Vec<NodeId>)
    ensures
        fresh@ == path@.filter(|id: NodeId| !active.character.activated_node_ids.order().contains(id)),
{
    let ghost p = |id: NodeId| !active.character.activated_node_ids.order().contains(id);
    let mut fresh: Vec<NodeId> = Vec::new();
    let mut i: usize = 0;
    while i < path.len()
        invariant
            i <= path@.len(),
            p == (|id: NodeId| !active.character.activated_node_ids.order().contains(id)),
            fresh@ == path@.subrange(0, i as int).filter(p),
        decreases path@.len() - i,
    {
        let id = path[i];
        proof {
            assert(path@.subrange(0, i + 1) == path@.subrange(0, i as int).push(id));
            path@.subrange(0, i as int).lemma_filter_push(id, p);
        }
        if !active.character.activated_node_ids.contains(id) {
            fresh.push(id);
        }
        i = i + 1;
    }
    assert(path@.subrange(0, path@.len() as int) == path@);
    fresh
}

/// Law: after a stat is toggled on, it is the toggled stat: no other is.
pub proof fn selection_is_exclusive(selections: Map<Seq<char>, bool>, stat: Seq<char>, other: Seq<char>)
    requires
        selections.contains_key(stat),
        selections[stat],
        forall|k: Seq<char>| #[trigger] selections.contains_key(k) && k != stat ==> !selections[k],
        selections.contains_key(other),
        selections[other],
    ensures
        other == stat,
{
}

} // verus!
