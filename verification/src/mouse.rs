use vstd::prelude::*;

use crate::components::NodeId;
use crate::events::{NodeActivationReq, NodeDeactivationReq};
use crate::resources::{MouseSelecetedNodeHistory, PathRepairRequired, RootNode};
use crate::text::{append_decimal, append_signed, decimal_text, signed_text};

verus! {

/// The mouse buttons a click can come from.
#[derive(Clone, Copy, Debug, PartialEq, Eq, Structural)]
pub enum PointerButton {
    Primary,
    Secondary,
    Middle,
}

/// A node under the pointer: its identifier and whether it carries `NodeInactive`
/// and `NodeActive`.
#[derive(Clone, Copy, Debug, PartialEq, Eq, Structural)]
pub struct NodeUnderPointer {
    pub node: NodeId,
    pub inactive: bool,
    pub active: bool,
}

/// A click: its button and the node it landed on, if any.
#[derive(Clone, Copy, Debug, PartialEq, Eq, Structural)]
pub struct Click {
    pub button: PointerButton,
    pub target: Option<NodeUnderPointer>,
}

/// What a click asks of the tree.
#[derive(Clone, Copy, Debug, PartialEq, Eq, Structural)]
pub enum ClickRequest {
    Activate(NodeActivationReq),
    Deactivate(NodeDeactivationReq),
}

/// Whether a click lands, with the primary button, on a node that is cleanly
/// unallocated or allocated (it then requests a repair and is remembered).
pub open spec fn click_counts(c: Click) -> bool {
    &&& c.button == PointerButton::Primary
    &&& c.target matches Some(t) && t.inactive != t.active
}

/// What a click asks: allocation of an unallocated node (only once a root is set),
/// or unallocation of an allocated one.
pub open spec fn click_request(root_set: bool, c: Click) -> Option<ClickRequest> {
    if click_counts(c) {
        let t = c.target->0;
        if t.inactive {
            if root_set {
                Some(ClickRequest::Activate(NodeActivationReq(t.node)))
            } else {
                None
            }
        } else {
            Some(ClickRequest::Deactivate(NodeDeactivationReq(t.node)))
        }
    } else {
        None
    }
}

/// The requests of a run of clicks, in order.
pub open spec fn click_requests(root_set: bool, clicks: Seq<Click>) -> Seq<ClickRequest>
    decreases clicks.len(),
{
    if clicks.len() == 0 {
        Seq::empty()
    } else {
        let rest = click_requests(root_set, clicks.drop_last());
        match click_request(root_set, clicks.last()) {
            Some(r) => rest.push(r),
            None => rest,
        }
    }
}

/// The nodes a run of clicks adds to the history, in order.
pub open spec fn clicked_nodes(clicks: Seq<Click>) -> Seq<NodeId>
    decreases clicks.len(),
{
    if clicks.len() == 0 {
        Seq::empty()
    } else {
        let rest = clicked_nodes(clicks.drop_last());
        if click_counts(clicks.last()) {
            rest.push(clicks.last().target->0.node)
        } else {
            rest
        }
    }
}

/// Law: only clicks of the primary button count: a click with any other button adds no
/// request and no remembered node to those of the clicks before it, and raises no repair.
pub proof fn only_primary_clicks_count(root_set: bool, clicks: Seq<Click>, c: Click)
    requires
        c.button != PointerButton::Primary,
    ensures
        !click_counts(c),
        click_requests(root_set, clicks.push(c)) == click_requests(root_set, clicks),
        clicked_nodes(clicks.push(c)) == clicked_nodes(clicks),
{
    assert(clicks.push(c).drop_last() == clicks);
}

/// Law: a run of clicks none of which is made with the primary button asks for nothing,
/// remembers nothing and raises no repair.
pub proof fn clicks_without_the_primary_button_do_nothing(root_set: bool, clicks: Seq<Click>)
    requires
        forall|k: int| 0 <= k < clicks.len() ==> #[trigger] clicks[k].button != PointerButton::Primary,
    ensures
        click_requests(root_set, clicks).len() == 0,
        clicked_nodes(clicks).len() == 0,
        forall|k: int| 0 <= k < clicks.len() ==> !click_counts(#[trigger] clicks[k]),
    decreases clicks.len(),
{
    if clicks.len() > 0 {
        let init = clicks.drop_last();
        assert forall|k: int| 0 <= k < init.len() implies #[trigger] init[k].button != PointerButton::Primary by {
            assert(init[k] == clicks[k]);
        }
        clicks_without_the_primary_button_do_nothing(root_set, init);
        assert(clicks[clicks.len() - 1] == clicks.last());
    }
}

/// Handles the clicks of a frame. A primary click on an unallocated node asks for it to
/// be allocated (once a root is set), one on an allocated node asks for it to be
/// unallocated; both request a path repair and remember the node. Other clicks do nothing.
pub fn handle_node_clicks(
    root: &RootNode,
    history: &mut MouseSelecetedNodeHistory,
    repair: &mut PathRepairRequired,
    clicks: &Vec<Click>,
) -> (reqs: Vec<ClickRequest>)
    ensures
        reqs@ == click_requests(root.0 is Some, clicks@),
        final(history).0@ == old(history).0@ + clicked_nodes(clicks@),
        final(repair).0 == (old(repair).0 || exists|k: int| 0 <= k < clicks@.len() && click_counts(#[trigger] clicks@[k])),
{
    let root_set = root.0.is_some();
    let mut reqs: Vec<ClickRequest> = Vec::new();
    let mut i: usize = 0;
    while i < clicks.len()
        invariant
            i <= clicks@.len(),
            root_set == root.0 is Some,
            reqs@ == click_requests(root_set, clicks@.subrange(0, i as int)),
            history.0@ == old(history).0@ + clicked_nodes(clicks@.subrange(0, i as int)),
            repair.0 == (old(repair).0 || exists|k: int| 0 <= k < i && click_counts(#[trigger] clicks@[k])),
        decreases clicks@.len() - i,
    {
        let c = clicks[i];
        proof {
            assert(clicks@.subrange(0, i + 1).drop_last() == clicks@.subrange(0, i as int));
            assert(clicks@.subrange(0, i + 1).last() == c);
        }
        let ghost old_history = history.0@;
        match c.button {
            PointerButton::Primary => {
                match c.target {
                    Some(t) => {
                        if t.inactive && !t.active {
                            if root_set {
                                reqs.push(ClickRequest::Activate(NodeActivationReq(t.node)));
                            }
                            repair.request_path_repair();
                            history.0.push_back(t.node);
                        } else if !t.inactive && t.active {
                            reqs.push(ClickRequest::Deactivate(NodeDeactivationReq(t.node)));
                            repair.request_path_repair();
                            history.0.push_back(t.node);
                        }
                    },
                    None => {},
                }
            },
            PointerButton::Secondary => {},
            PointerButton::Middle => {},
        }
        proof {
            if click_counts(c) {
                assert(history.0@ =~= old_history.push(c.target->0.node));
                assert(history.0@ =~= old(history).0@ + clicked_nodes(clicks@.subrange(0, i + 1)));
            }
            assert(clicks@[i as int] == c);
        }
        i = i + 1;
    }
    assert(clicks@.subrange(0, clicks@.len() as int) == clicks@);
    reqs
}

/// The colours the interaction systems ask for.
#[derive(Clone, Copy, Debug, PartialEq, Eq, Structural)]
pub enum GameColour {
    NodeBase,
    NodeActivated,
    EdgeBase,
    EdgeActivated,
    Cyan,
    Orange,
    Blue,
}

/// A node under the pointer as the hover systems see it.
#[derive(Clone, Copy, Debug, PartialEq, Eq, Structural)]
pub struct HoverTarget {
    pub node: NodeId,
    pub hovered: bool,
    pub active: bool,
}

/// What the pointer entering something does.
#[derive(Clone, Copy, Debug, PartialEq, Eq, Structural)]
pub enum HoverStart {
    /// A node starts being hovered: it takes the colour and its path is previewed.
    Begin { node: NodeId, colour: GameColour },
    /// The node is already hovered: nothing happens.
    AlreadyHovered,
    /// Not a node: the previewed path is cleared.
    ClearVirtualPath,
}

/// The pointer entered `target` (`None` when it is not a node). A node not yet hovered
/// starts being hovered, cyan when allocated and orange otherwise, and its path is previewed.
pub fn hover_started(target: Option<HoverTarget>) -> (start: HoverStart)
    ensures
        target is None ==> start == HoverStart::ClearVirtualPath,
        target matches Some(t) ==> (if t.hovered {
            start == HoverStart::AlreadyHovered
        } else {
            start == HoverStart::Begin {
                node: t.node,
                colour: if t.active {
                    GameColour::Cyan
                } else {
                    GameColour::Orange
                },
            }
        }),
{
    match target {
        None => HoverStart::ClearVirtualPath,
        Some(t) => {
            if t.hovered {
                HoverStart::AlreadyHovered
            } else {
                let colour = if t.active {
                    GameColour::Cyan
                } else {
                    GameColour::Orange
                };
                HoverStart::Begin { node: t.node, colour }
            }
        },
    }
}

/// The pointer left `target` (`None` when it is not a node). A hovered node stops being
/// hovered, takes back its colour (allocated or base) and the previewed path is cleared;
/// `None` when nothing happens.
pub fn hover_ended(target: Option<HoverTarget>) -> (colour: Option<GameColour>)
    ensures
        target is None ==> colour is None,
        target matches Some(t) ==> (if t.hovered {
            colour == Some(
                if t.active {
                    GameColour::NodeActivated
                } else {
                    GameColour::NodeBase
                },
            )
        } else {
            colour is None
        }),
{
    match target {
        None => None,
        Some(t) => {
            if t.hovered {
                if t.active {
                    Some(GameColour::NodeActivated)
                } else {
                    Some(GameColour::NodeBase)
                }
            } else {
                None
            }
        },
    }
}

/// The text shown beside a hovered node: its identifier and name, the number of nodes on
/// the previewed path, and how many more that is than the character has allocated.
pub open spec fn node_info(id: NodeId, name: Seq<char>, path_count: nat, allocated: nat) -> Seq<char> {
    "\nNode "@ + decimal_text(id as nat) + ":"@ + name + "\nTotalCost :"@ + decimal_text(path_count) + "\nDelta: "@
        + signed_text(path_count - allocated)
}

/// The text shown beside the hovered node `id` named `name`, with `path_count` nodes on the
/// previewed path and `allocated` nodes allocated (both counted as signed numbers, as the
/// difference is).
pub fn node_info_text(id: NodeId, name: &str, path_count: usize, allocated: usize) -> (text: String)
    requires
        path_count <= i64::MAX,
        allocated <= i64::MAX,
    ensures
        text@ == node_info(id, name@, path_count as nat, allocated as nat),
{
    let mut text = String::new();
    text.append("\nNode ");
    append_decimal(&mut text, id as u64);
    text.append(":");
    text.append(name);
    text.append("\nTotalCost :");
    append_decimal(&mut text, path_count as u64);
    text.append("\nDelta: ");
    append_signed(&mut text, (path_count as i64) - (allocated as i64));
    proof {
        reveal_strlit("\nNode ");
        reveal_strlit(":");
        reveal_strlit("\nTotalCost :");
        reveal_strlit("\nDelta: ");
    }
    assert(text@ =~= node_info(id, name@, path_count as nat, allocated as nat));
    text
}

} // verus!
