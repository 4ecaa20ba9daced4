use poe_vis::components::{
    ActiveNodeCount, EdgeActive, EdgeInactive, EdgeMarker, GroupMarker, ManuallyHighlighted, NodeActive, NodeInactive,
    NodeMarker, Pinned, SearchMarker, SearchResult, VirtualPathMember,
};
use poe_vis::consts::{MAXIMUM_ACTIVATEABLE_NODES, SEARCH_THRESHOLD};
use poe_vis::events::{EdgeActivationReq, EdgeDeactivationReq};

#[test]
fn edge_markers_give_their_ends_in_order() {
    assert_eq!(EdgeMarker(3, 9).as_tuple(), (3, 9));
    assert_eq!(EdgeActivationReq(4, 1).as_tuple(), (4, 1));
    assert_eq!(EdgeDeactivationReq(7, 8).as_tuple(), (7, 8));
    assert_eq!(NodeMarker(5).0, 5);
    assert_eq!(GroupMarker(2).0, 2);
}

#[test]
fn markers_carry_no_data() {
    let _ = (Pinned, NodeActive, EdgeActive, NodeInactive, EdgeInactive, SearchMarker, SearchResult);
    let _ = (ActiveNodeCount, VirtualPathMember, ManuallyHighlighted);
    assert_eq!(std::mem::size_of::<Pinned>(), 0);
    assert_eq!(MAXIMUM_ACTIVATEABLE_NODES, 123);
    assert_eq!(SEARCH_THRESHOLD, 5);
}
