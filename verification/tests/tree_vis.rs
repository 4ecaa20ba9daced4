use std::collections::HashSet;

use poe_vis::tree_vis::{EdgePairs, TreeNode, TreeNodes, TreeVis};

fn node(id: usize, active: bool) -> TreeNode {
    TreeNode { node_id: id, active }
}

fn vis(nodes: &[(usize, bool)]) -> TreeVis {
    let nodes: Vec<TreeNode> = nodes.iter().map(|&(id, a)| node(id, a)).collect();
    TreeVis::new(TreeNodes::from_nodes(&nodes), None)
}

fn vis_for_character(nodes: &[(usize, bool)], allocated: &[usize]) -> TreeVis {
    let nodes: Vec<TreeNode> = nodes.iter().map(|&(id, a)| node(id, a)).collect();
    TreeVis::new(TreeNodes::from_nodes(&nodes), Some(allocated.iter().copied().collect()))
}

fn states(v: &TreeVis) -> Vec<(usize, bool)> {
    (0..v.passive_nodes.len()).map(|k| {
        let n = v.passive_nodes.get(k);
        (n.node_id, n.active)
    }).collect()
}

fn has_edge(v: &TreeVis, a: usize, b: usize) -> bool {
    v.active_edges.contains((a, b))
}

#[test]
fn the_fuzzy_search_opens_and_closes() {
    let mut v = vis(&[(1, false)]);
    assert!(!v.is_fuzzy_search_open());
    v.enable_fuzzy_search();
    assert!(v.is_fuzzy_search_open());
    v.disable_fuzzy_search();
    assert!(!v.is_fuzzy_search_open());
}

#[test]
fn a_new_visualiser_starts_empty() {
    let v = vis(&[(1, true), (2, false)]);
    assert_eq!(v.search_query, "");
    assert!(v.search_results.is_empty());
    assert_eq!((v.start_node_id, v.target_node_id), (0, 0));
    assert!(v.highlighted_path.is_empty());
    assert!(v.active_nodes.is_empty());
    assert!(!v.requires_activation_check);
    assert_eq!(v.get_target_node(), Some(0));
}

#[test]
fn tree_nodes_keep_the_first_node_of_each_identifier() {
    let tree = TreeNodes::from_nodes(&vec![node(4, true), node(2, false), node(4, false)]);
    assert_eq!(tree.len(), 2);
    assert_eq!(tree.find(4), Some(0));
    assert_eq!(tree.get(0), node(4, true));
    assert_eq!(tree.find(9), None);
}

#[test]
fn edge_pairs_hold_each_edge_once() {
    let mut e = EdgePairs::new();
    e.insert((1, 2));
    e.insert((1, 2));
    e.insert((2, 1));
    assert!(e.contains((1, 2)) && e.contains((2, 1)));
    assert!(!e.contains((1, 3)));
    e.clear();
    assert!(!e.contains((1, 2)));
}

#[test]
fn clicking_flips_a_node_and_its_place_on_the_highlighted_path() {
    let mut v = vis(&[(1, false), (2, true)]);
    v.click_node(1);
    assert_eq!(states(&v), vec![(1, true), (2, true)]);
    assert_eq!(v.highlighted_path, vec![1]);
    assert!(v.requires_activation_check);
    v.click_node(1);
    assert_eq!(states(&v), vec![(1, false), (2, true)]);
    assert!(v.highlighted_path.is_empty());
    v.click_node(99);
    assert_eq!(states(&v), vec![(1, false), (2, true)]);
}

#[test]
fn a_node_joins_the_highlighted_path_once() {
    let mut v = vis(&[(1, false)]);
    v.highlighted_path = vec![1, 5];
    v.click_node(1);
    assert_eq!(v.highlighted_path, vec![1, 5]);
    v.click_node(1);
    assert_eq!(v.highlighted_path, vec![5]);
}

#[test]
fn a_path_lights_its_edges_both_ways() {
    let mut v = vis(&[]);
    v.update_active_edges(&vec![1, 2, 3]);
    for (a, b) in [(1, 2), (2, 1), (2, 3), (3, 2)] {
        assert!(has_edge(&v, a, b));
    }
    assert!(!has_edge(&v, 1, 3));
    let mut w = vis(&[]);
    w.update_active_edges(&vec![7]);
    assert!(!has_edge(&w, 7, 7));
}

#[test]
fn clearing_unallocates_every_node() {
    let mut v = vis(&[(1, true), (2, true)]);
    v.highlighted_path = vec![1, 2];
    v.update_active_edges(&vec![1, 2]);
    v.clear_active_nodes();
    assert_eq!(states(&v), vec![(1, false), (2, false)]);
    assert!(v.highlighted_path.is_empty());
    assert!(!has_edge(&v, 1, 2));
}

#[test]
fn clearing_nodes_and_edges_spares_the_start_node() {
    let mut v = vis(&[(1, true), (2, true), (3, false)]);
    assert!(v.set_start_node(2));
    v.update_active_edges(&vec![1, 2]);
    v.clear_active_nodes_and_edges();
    assert_eq!(states(&v), vec![(1, false), (2, true), (3, false)]);
    assert!(!has_edge(&v, 1, 2));
}

#[test]
fn the_allocated_nodes_are_the_ends_of_paths() {
    let v = vis(&[(5, true), (6, false), (7, true)]);
    assert_eq!(v.active_node_ids(), vec![5, 7]);
}

#[test]
fn the_first_shortest_non_empty_path_is_found() {
    let v = vis(&[]);
    let candidates = vec![(vec![], 1), (vec![9, 8, 1], 1), (vec![9, 2], 2), (vec![9, 3], 3)];
    assert_eq!(v.find_shortest_path_to_active_node(&candidates), Some((vec![9, 2], 2)));
    assert_eq!(v.find_shortest_path_to_active_node(&vec![(vec![], 4)]), None);
    assert_eq!(v.find_shortest_path_to_active_node(&vec![]), None);
}

#[test]
fn processing_a_path_allocates_it_only_when_asked() {
    let mut v = vis(&[(1, true), (2, false), (3, false)]);
    let found = Some((vec![3, 2, 1], 1));
    assert_eq!(v.process_path_to_active_node(found.clone(), false), Some(vec![3, 2, 1]));
    assert_eq!(states(&v), vec![(1, true), (2, false), (3, false)]);
    assert!(!has_edge(&v, 3, 2));
    assert_eq!(v.process_path_to_active_node(found, true), Some(vec![3, 2, 1]));
    assert_eq!(states(&v), vec![(1, true), (2, true), (3, true)]);
    assert!(has_edge(&v, 3, 2) && has_edge(&v, 1, 2));
    assert!(v.active_nodes.contains(&2) && v.active_nodes.contains(&3) && !v.active_nodes.contains(&1));
    assert_eq!(v.process_path_to_active_node(None, true), None);
}

#[test]
fn hovering_previews_the_path_to_an_unallocated_node() {
    let mut v = vis(&[(1, true), (2, false)]);
    v.hover_node(2, Some((vec![2, 1], 1)));
    assert_eq!(v.highlighted_path, vec![2, 1]);
    assert_eq!(states(&v), vec![(1, true), (2, false)]);
    v.hover_node(1, Some((vec![1], 1)));
    assert_eq!(v.highlighted_path, vec![2, 1]);
    v.hover_node(2, None);
    assert_eq!(v.highlighted_path, vec![2, 1]);
    v.hover_node(42, Some((vec![42, 1], 1)));
    assert_eq!(v.highlighted_path, vec![2, 1]);
}

#[test]
fn selecting_targets_a_node_and_allocates_its_path() {
    let mut v = vis(&[(1, true), (2, false)]);
    v.select_node(2, Some((vec![2, 1], 1)));
    assert_eq!(v.get_target_node(), Some(2));
    assert_eq!(states(&v), vec![(1, true), (2, true)]);
    assert!(has_edge(&v, 2, 1));
}

#[test]
fn the_search_results_follow_the_query() {
    let mut v = vis(&[(1, false), (2, false)]);
    v.update_search("life".to_string(), vec![2, 9, 1]);
    assert_eq!(v.search_query, "life");
    assert_eq!(v.search_results, vec![2, 9, 1]);
    assert_eq!(v.shown_search_results(), vec![2, 1]);
    v.update_search(String::new(), vec![2]);
    assert!(v.search_results.is_empty());
    assert!(v.shown_search_results().is_empty());
}

#[test]
fn start_and_target_nodes_are_checked_before_they_are_taken() {
    let mut v = vis(&[(1, false), (2, false)]);
    assert!(v.set_start_node(2));
    assert_eq!(v.start_node_id, 2);
    assert!(!v.set_start_node(3));
    assert_eq!(v.start_node_id, 2);
    assert!(v.set_target_node(40, true));
    assert_eq!(v.target_node_id, 40);
    assert!(!v.set_target_node(50, false));
    assert_eq!(v.target_node_id, 40);
}

#[test]
fn clicking_twice_gives_back_the_tree() {
    let mut v = vis(&[(1, true), (2, false), (3, true)]);
    v.highlighted_path = vec![3];
    let before = states(&v);
    v.click_node(2);
    v.click_node(2);
    assert_eq!(states(&v), before);
    assert_eq!(v.highlighted_path, vec![3]);
    v.click_node(3);
    v.click_node(3);
    assert_eq!(states(&v), before);
    assert_eq!(v.highlighted_path, vec![3]);
}

#[test]
fn allocating_a_path_twice_changes_nothing_more() {
    let mut v = vis(&[(1, true), (2, false), (3, false)]);
    let found = Some((vec![3, 2, 1], 1));
    v.process_path_to_active_node(found.clone(), true);
    let once = states(&v);
    let recorded_once = v.active_nodes.clone();
    v.process_path_to_active_node(found, true);
    assert_eq!(states(&v), once);
    assert_eq!(v.active_nodes, recorded_once);
}

#[test]
fn opening_and_closing_the_search_touches_nothing_else() {
    let mut v = vis(&[(1, true), (2, false)]);
    v.update_search("life".to_string(), vec![2]);
    v.update_active_edges(&vec![1, 2]);
    v.highlighted_path = vec![2];
    v.enable_fuzzy_search();
    assert_eq!(v.search_query, "life");
    assert_eq!(v.search_results, vec![2]);
    assert_eq!(v.highlighted_path, vec![2]);
    assert!(has_edge(&v, 1, 2));
    assert_eq!(states(&v), vec![(1, true), (2, false)]);
    v.disable_fuzzy_search();
    assert_eq!(v.search_query, "life");
    assert_eq!(v.highlighted_path, vec![2]);
    assert!(has_edge(&v, 2, 1));
}

#[test]
fn lighting_a_path_touches_nothing_but_the_edges() {
    let mut v = vis(&[(1, true), (2, false)]);
    v.update_search("str".to_string(), vec![1]);
    v.enable_fuzzy_search();
    v.update_active_edges(&vec![1, 2]);
    assert!(v.is_fuzzy_search_open());
    assert_eq!(v.search_query, "str");
    assert_eq!(v.search_results, vec![1]);
    assert!(!v.requires_activation_check);
}

#[test]
fn unallocating_a_node_by_click_drops_it_and_its_edges() {
    let mut v = vis(&[(1, true), (2, false), (3, false)]);
    v.process_path_to_active_node(Some((vec![3, 2, 1], 1)), true);
    assert!(v.active_nodes.contains(&2) && v.active_nodes.contains(&3));
    v.click_node(2);
    assert_eq!(states(&v), vec![(1, true), (2, false), (3, true)]);
    assert!(!v.active_nodes.contains(&2));
    assert!(v.active_nodes.contains(&3));
    for (a, b) in [(1, 2), (2, 1), (2, 3), (3, 2)] {
        assert!(!has_edge(&v, a, b));
    }
}

#[test]
fn allocating_a_node_by_click_keeps_the_recorded_nodes_and_edges() {
    let mut v = vis(&[(1, true), (2, false), (3, false)]);
    v.update_active_edges(&vec![1, 2]);
    v.click_node(3);
    assert!(v.active_nodes.is_empty());
    assert!(has_edge(&v, 1, 2) && has_edge(&v, 2, 1));
}

#[test]
fn removing_the_edges_at_a_node_keeps_the_others() {
    let mut e = EdgePairs::new();
    for edge in [(1, 2), (2, 1), (2, 3), (3, 4), (4, 3)] {
        e.insert(edge);
    }
    e.remove_touching(2);
    assert!(!e.contains((1, 2)) && !e.contains((2, 1)) && !e.contains((2, 3)));
    assert!(e.contains((3, 4)) && e.contains((4, 3)));
}

#[test]
fn an_allocated_path_goes_to_the_loaded_character() {
    let mut v = vis_for_character(&[(1, true), (2, false), (3, false)], &[1]);
    v.process_path_to_active_node(Some((vec![3, 2, 1, 77], 1)), true);
    let expected: HashSet<usize> = [1, 2, 3].into_iter().collect();
    assert_eq!(v.character_nodes, Some(expected));
    let mut w = vis_for_character(&[(1, true), (2, false)], &[1]);
    w.process_path_to_active_node(Some((vec![2, 1], 1)), false);
    assert_eq!(w.character_nodes, Some([1].into_iter().collect()));
    let mut x = vis(&[(1, true), (2, false)]);
    x.select_node(2, Some((vec![2, 1], 1)));
    assert_eq!(x.character_nodes, None);
}

#[test]
fn tree_nodes_keep_their_order() {
    let tree = TreeNodes::from_nodes(&vec![node(9, false), node(3, true), node(9, true), node(1, false), node(3, false)]);
    let kept: Vec<TreeNode> = (0..tree.len()).map(|k| tree.get(k)).collect();
    assert_eq!(kept, vec![node(9, false), node(3, true), node(1, false)]);
}
