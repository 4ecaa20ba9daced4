use vstd::prelude::*;

verus! {

/// Identifier of a passive-tree node.
pub type NodeId = u32;

/// Identifier of one end of an edge (a node identifier).
pub type EdgeId = u32;

/// Identifier of a group of nodes.
pub type GroupId = u32;

/// Marks an entity as the drawing of a node.
pub struct NodeMarker(pub NodeId);

/// Marks an entity as the drawing of the edge between two nodes.
#[derive(Clone, Copy, Debug)]
pub struct EdgeMarker(pub NodeId, pub NodeId);

impl EdgeMarker {
    /// The two ends of the edge, in the order they were given.
    pub fn as_tuple(&self) -> (ends: (NodeId, NodeId))
        ensures
            ends == (self.0, self.1),
    {
        (self.0, self.1)
    }
}

/// Use this to pin an entity which will take it OUT
/// of being influenced by other systems.
pub struct Pinned;

/// A node that is part of the character's allocation.
pub struct NodeActive;

/// An edge whose both ends are allocated.
pub struct EdgeActive;

/// A node that is not allocated.
pub struct NodeInactive;

/// An edge that is not lit.
pub struct EdgeInactive;

/// Marks an entity as the drawing of a group.
pub struct GroupMarker(pub GroupId);

/// Marks the text that follows the cursor over a hovered node.
pub struct NodeHoverText;

/// Marks the search box.
pub struct SearchMarker;

/// A node that matches the current search.
pub struct SearchResult;

/// Marks the counter of active nodes.
pub struct ActiveNodeCount;

/// A node or edge on the previewed (virtual) path.
pub struct VirtualPathMember;

/// A node or edge coloured by hand; the activation systems leave it alone.
pub struct ManuallyHighlighted;

} // verus!
