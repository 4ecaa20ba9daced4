use vstd::prelude::*;

use crate::components::{EdgeId, NodeId};

verus! {

//----------- VIRTUAL PATHS -------------- //
/// Asks for the path from the allocation to the given (hovered) node to be previewed.
pub struct VirtualPathReq(pub NodeId);

/// Asks for the previewed path to be cleared.
pub struct ClearVirtualPath;

/// Asks for every previewed path to be cleared.
pub struct ClearVirtualPaths;

//----------- SEARCH -------------- //
/// Asks for the search results to be cleared.
pub struct ClearSearchResults;

/// Asks for the search box to be shown or hidden.
pub struct ShowSearch;

//----------- EDGES -------------- //
/// Asks for the edge between two nodes to be coloured by hand.
pub struct ManualEdgeHighlightWithColour(pub NodeId, pub NodeId, pub String);

/// Asks for the edge between two nodes to be lit.
#[derive(Clone, Copy, Debug, PartialEq, Eq, Structural)]
pub struct EdgeActivationReq(pub EdgeId, pub EdgeId);

impl EdgeActivationReq {
    /// The two ends, in the order they were given.
    pub fn as_tuple(&self) -> (ends: (EdgeId, EdgeId))
        ensures
            ends == (self.0, self.1),
    {
        (self.0, self.1)
    }
}

/// Asks for the edge between two nodes to be put out.
#[derive(Clone, Copy, Debug, PartialEq, Eq, Structural)]
pub struct EdgeDeactivationReq(pub EdgeId, pub EdgeId);

impl EdgeDeactivationReq {
    /// The two ends, in the order they were given.
    pub fn as_tuple(&self) -> (ends: (EdgeId, EdgeId))
        ensures
            ends == (self.0, self.1),
    {
        (self.0, self.1)
    }
}

//----------- NODES-------------- //
/// Asks for a node to be allocated.
#[derive(Clone, Copy, Debug, PartialEq, Eq, Structural)]
pub struct NodeActivationReq(pub NodeId);

/// Asks for a node to be unallocated.
#[derive(Clone, Copy, Debug, PartialEq, Eq, Structural)]
pub struct NodeDeactivationReq(pub NodeId);

/// Asks for a node to be coloured by hand.
pub struct ManualNodeHighlightWithColourReq(pub NodeId, pub String);

/// Asks for the root node to be replaced.
pub struct OverrideRootNodeReq(pub NodeId);

//----------- CHARACTER -------------- //
/// Asks for a character to be loaded from the given path.
pub struct LoadCharacterReq(pub String);

/// Asks for the active character to be brought in line with the tree.
pub struct SyncCharacterReq();

/// Asks for the character to be saved where it was last saved.
pub struct SaveCharacterReq;

/// Asks for the character's allocation to be replaced by the given nodes.
pub struct OverrideCharacterNodesReq(pub Vec<NodeId>);

/// Asks for the character to be saved at the given path.
pub struct SaveCharacterAsReq(pub String);

//----------- GLOBAL CLEAR -------------- //
/// Asks for everything to be cleared.
pub struct ClearAllReqReq;

//----------- WARNINGS -------------- //
/// A warning to show the user.
pub struct ThrowWarning(pub String);

//----------- DRAG AND DROP -------------- //
/// A file dropped on the window.
pub struct DragNDrop {
    pub path: String,
}

} // verus!
