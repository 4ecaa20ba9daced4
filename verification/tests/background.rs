use std::collections::VecDeque;

use poe_vis::characters::{ActiveCharacter, ActiveNodes, Character};
use poe_vis::components::EdgeMarker;
use poe_vis::edges::{
    process_edge_activations, process_edge_deactivations, scan_edges_for_active_updates, scan_edges_for_inactive_updates,
    update_edges, bg_edge_updater, EdgeState,
};
use poe_vis::events::{EdgeActivationReq, EdgeDeactivationReq, NodeActivationReq, NodeDeactivationReq};
use poe_vis::nodes::{
    highlight_starting_node, process_manual_edge_highlights, process_manual_node_highlights, process_node_activations, process_node_deactivations,
    sufficient_active_nodes,
};
use poe_vis::paths::{
    new_activations, pathfinding_activations, activation_requests, begin_path_repair, clear, fall_back_to_root, finish_path_repair, populate_virtual_path,
    validate_path_to_root, RepairAction, RepairStart,
};
use poe_vis::resources::{MouseSelecetedNodeHistory, PathRepairRequired};

fn edges(pairs: &[(u32, u32)]) -> Vec<EdgeMarker> {
    pairs.iter().map(|&(a, b)| EdgeMarker(a, b)).collect()
}

fn witch(start: u32, allocated: &[u32]) -> ActiveCharacter {
    ActiveCharacter {
        character: Character {
            character_class: "Witch".to_string(),
            name: "Tester".to_string(),
            activated_node_ids: ActiveNodes::from_ids(&allocated.to_vec()),
            date_created: "today".to_string(),
            level: 1,
            quest_passive_skills: 0,
            starting_node: start,
        },
    }
}

#[test]
fn requested_edges_light_only_with_both_ends_active() {
    let inactive = edges(&[(1, 2), (2, 3), (3, 4), (2, 1)]);
    let reqs = vec![EdgeActivationReq(1, 2), EdgeActivationReq(3, 4), EdgeActivationReq(2, 1)];
    assert_eq!(process_edge_activations(&inactive, &reqs, &vec![1, 2, 3]), vec![0, 3]);
    assert_eq!(process_edge_activations(&inactive, &vec![], &vec![1, 2, 3, 4]), Vec::<usize>::new());
}

#[test]
fn requested_edges_go_out_only_with_an_end_inactive() {
    let active = edges(&[(1, 2), (2, 3), (3, 4)]);
    let reqs = vec![EdgeDeactivationReq(1, 2), EdgeDeactivationReq(2, 3), EdgeDeactivationReq(4, 3)];
    assert_eq!(process_edge_deactivations(&active, &reqs, &vec![1, 2, 4]), vec![1]);
    assert_eq!(process_edge_deactivations(&active, &reqs, &vec![]), vec![0, 1]);
}

#[test]
fn scans_ask_for_exactly_the_connected_and_the_broken_edges() {
    let all = edges(&[(1, 2), (2, 3), (3, 4)]);
    let active = vec![1, 2, 3];
    assert_eq!(scan_edges_for_active_updates(&all, &active), vec![EdgeActivationReq(1, 2), EdgeActivationReq(2, 3)]);
    assert_eq!(scan_edges_for_inactive_updates(&all, &active), vec![EdgeDeactivationReq(3, 4)]);
}

#[test]
fn a_scanned_edge_is_lit_on_the_next_pass() {
    let inactive = edges(&[(5, 6), (6, 7)]);
    let active = vec![5, 6];
    let reqs = scan_edges_for_active_updates(&inactive, &active);
    assert_eq!(process_edge_activations(&inactive, &reqs, &active), vec![0]);
    let lit = edges(&[(5, 6), (6, 7)]);
    let reqs = scan_edges_for_inactive_updates(&lit, &active);
    assert_eq!(process_edge_deactivations(&lit, &reqs, &active), vec![1]);
}

#[test]
fn requested_nodes_and_the_root_are_allocated() {
    let inactive = vec![10, 20, 30, 40];
    let reqs = vec![NodeActivationReq(20), NodeActivationReq(99)];
    assert_eq!(process_node_activations(&inactive, &reqs, Some(40)), vec![1, 3]);
    assert_eq!(process_node_activations(&inactive, &vec![], None), Vec::<usize>::new());
    assert_eq!(process_node_activations(&vec![0, 5], &vec![], None), vec![0]);
}

#[test]
fn protected_start_nodes_are_never_unallocated() {
    let active = vec![10, 20, 30];
    let reqs = vec![NodeDeactivationReq(10), NodeDeactivationReq(20), NodeDeactivationReq(30)];
    assert_eq!(process_node_deactivations(&active, &reqs, &vec![20]), vec![0, 2]);
    assert_eq!(process_node_deactivations(&active, &vec![], &vec![]), Vec::<usize>::new());
}

#[test]
fn path_systems_need_two_allocated_nodes() {
    assert!(!sufficient_active_nodes(0));
    assert!(!sufficient_active_nodes(1));
    assert!(sufficient_active_nodes(2));
}

#[test]
fn manual_highlights_find_the_drawn_node_and_edges_either_way() {
    assert_eq!(process_manual_node_highlights(&vec![4, 7, 4], 4), vec![0, 2]);
    assert_eq!(process_manual_node_highlights(&vec![4, 7], 8), Vec::<usize>::new());
    let all = edges(&[(1, 2), (2, 1), (2, 3)]);
    assert_eq!(process_manual_edge_highlights(&all, 1, 2), vec![0, 1]);
    assert_eq!(process_manual_edge_highlights(&all, 3, 2), vec![2]);
}

#[test]
fn paths_to_the_root_gather_their_nodes_once() {
    let mut repair = PathRepairRequired(true);
    let paths = vec![vec![1, 2, 3], vec![1, 4], vec![]];
    assert_eq!(validate_path_to_root(Some(1), &paths, &mut repair), vec![1, 2, 3, 4]);
    assert!(!repair.0);
    let mut repair = PathRepairRequired(false);
    assert_eq!(validate_path_to_root(Some(1), &vec![vec![], vec![]], &mut repair), Vec::<u32>::new());
    assert!(repair.0);
    let mut repair = PathRepairRequired(false);
    assert_eq!(validate_path_to_root(None, &paths, &mut repair), Vec::<u32>::new());
    assert!(!repair.0);
}

#[test]
fn a_repair_grows_from_the_last_click() {
    let mut repair = PathRepairRequired(true);
    let history = MouseSelecetedNodeHistory(VecDeque::from(vec![3, 8]));
    match begin_path_repair(&history, &vec![1, 8, 5, 8], &mut repair) {
        RepairStart::From { most_recent, targets } => {
            assert_eq!(most_recent, 8);
            assert_eq!(targets, vec![1, 5]);
        },
        RepairStart::NothingSelected => panic!("a click was recorded"),
    }
    assert!(repair.0);
    let empty = MouseSelecetedNodeHistory(VecDeque::new());
    assert!(matches!(begin_path_repair(&empty, &vec![1], &mut repair), RepairStart::NothingSelected));
    assert!(!repair.0);
}

#[test]
fn a_repair_allocates_short_paths_and_refuses_long_ones() {
    let mut repair = PathRepairRequired(true);
    match finish_path_repair(Some(vec![8, 9, 1]), 3, &mut repair) {
        RepairAction::Activate { path } => assert_eq!(path, vec![8, 9, 1]),
        _ => panic!("a short path is allocated"),
    }
    assert!(!repair.0);
    let mut repair = PathRepairRequired(true);
    assert!(matches!(finish_path_repair(Some(vec![1, 2, 3, 4]), 3, &mut repair), RepairAction::TooLong));
    assert!(repair.0);
    assert!(matches!(finish_path_repair(Some(vec![]), 3, &mut repair), RepairAction::FallBackToRoot));
    assert!(matches!(finish_path_repair(None, 3, &mut repair), RepairAction::FallBackToRoot));
    assert!(repair.0);
}

#[test]
fn a_failed_repair_falls_back_to_the_root_path() {
    let mut repair = PathRepairRequired(false);
    let reqs = fall_back_to_root(&vec![1, 2], &mut repair);
    assert_eq!(reqs, vec![NodeActivationReq(1), NodeActivationReq(2)]);
    assert!(repair.0);
    assert_eq!(activation_requests(&vec![]), Vec::<NodeActivationReq>::new());
}

#[test]
fn the_first_shortest_candidate_is_previewed() {
    let candidates = vec![None, Some(vec![1, 2, 3]), Some(vec![4, 5]), Some(vec![6, 7])];
    let nodes = vec![5, 6, 4, 9];
    let all = edges(&[(4, 5), (5, 6), (5, 4)]);
    let plan = populate_virtual_path(&candidates, &nodes, &all).expect("a path was found");
    assert_eq!(plan.nodes, vec![0, 2]);
    assert_eq!(plan.edges, vec![0, 2]);
    assert!(populate_virtual_path(&vec![None, None], &nodes, &all).is_none());
    assert!(populate_virtual_path(&vec![], &nodes, &all).is_none());
}

#[test]
fn clearing_resets_all_but_the_start_node() {
    let mut active = witch(7, &[7, 8, 9]);
    let mut repair = PathRepairRequired(true);
    let mut history = MouseSelecetedNodeHistory(VecDeque::from(vec![8, 9]));
    let plan = clear(&vec![8, 7, 9], &edges(&[(7, 8), (8, 9)]), &mut active, &mut repair, &mut history);
    assert_eq!(plan.nodes, vec![0, 2]);
    assert_eq!(plan.node_reqs, vec![NodeDeactivationReq(8), NodeDeactivationReq(9)]);
    assert_eq!(plan.edge_reqs, vec![EdgeDeactivationReq(7, 8), EdgeDeactivationReq(8, 9)]);
    assert!(!repair.0);
    assert!(history.0.is_empty());
    assert_eq!(active.character.activated_node_ids.len(), 0);
    assert_eq!(active.character.starting_node, 7);
}

#[test]
fn unlit_edges_between_present_nodes_are_lit() {
    let all = edges(&[(1, 2), (2, 9), (3, 1)]);
    let (light, dark) = update_edges(&all, &vec![1, 2, 3]);
    assert_eq!(light, vec![0, 2]);
    assert_eq!(dark, vec![1]);
    let (light, dark) = update_edges(&all, &vec![]);
    assert!(light.is_empty());
    assert_eq!(dark, vec![0, 1, 2]);
}

#[test]
fn a_loaded_character_lights_its_start_and_its_nodes() {
    let active = witch(7, &[8, 11]);
    assert_eq!(highlight_starting_node(&vec![6, 7, 8, 9, 11], &active), vec![1, 2, 4]);
    assert_eq!(highlight_starting_node(&vec![1, 2], &active), Vec::<usize>::new());
}

#[test]
fn the_edge_updater_fixes_only_edges_whose_marks_disagree() {
    let state = |a: u32, b: u32, lit: bool, unlit: bool| EdgeState { edge: EdgeMarker(a, b), lit, unlit };
    let all = vec![
        state(1, 2, false, true),
        state(1, 3, true, false),
        state(1, 2, true, false),
        state(2, 3, false, true),
        state(1, 2, true, true),
    ];
    let (light, dark) = bg_edge_updater(&all, &vec![1, 2]);
    assert_eq!(light, vec![0]);
    assert_eq!(dark, vec![1]);
}

#[test]
fn new_activations_are_the_active_nodes_the_character_lacks() {
    let active = witch(1, &[1, 2]);
    assert_eq!(new_activations(&vec![1, 5, 2, 6], &active), vec![5, 6]);
}

#[test]
fn the_pathfinder_allocates_inactive_nodes_on_the_paths() {
    let paths = vec![vec![1, 2, 3], vec![1, 4]];
    let all = vec![9, 2, 3, 4, 1, 3];
    assert_eq!(pathfinding_activations(&paths, &vec![1, 4], &all), vec![1, 5]);
    assert!(pathfinding_activations(&vec![], &vec![], &all).is_empty());
}
