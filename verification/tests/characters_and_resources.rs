use poe_vis::characters::{
    activate_starting_nodes, active_character_to_world, class_start_node, handle_class_change, has_been_updated,
    load_format, override_char, reset_root_after_load, save_location, set_starting_node_based_on_character_class,
    sync_for_save, update_active_from_character, world_to_active_character, ActiveCharacter, ActiveNodes, Character,
    LoadFormat,
};
use poe_vis::components::EdgeMarker;
use poe_vis::consts::DEFAULT_SAVE_PATH;
use poe_vis::events::{NodeActivationReq, NodeDeactivationReq, OverrideCharacterNodesReq, SaveCharacterAsReq};
use poe_vis::resources::{
    JobStatus, LastSaveLocation, Optimiser, PathRepairRequired, RootNode, SearchState, ToggleUi, VirtualPath,
};

fn character(class: &str, start: u32, allocated: &[u32]) -> ActiveCharacter {
    ActiveCharacter {
        character: Character {
            character_class: class.to_string(),
            name: "Tester".to_string(),
            activated_node_ids: ActiveNodes::from_ids(&allocated.to_vec()),
            date_created: "2025-01-01".to_string(),
            level: 1,
            quest_passive_skills: 0,
            starting_node: start,
        },
    }
}

fn sorted(v: &[u32]) -> Vec<u32> {
    let mut v = v.to_vec();
    v.sort();
    v
}

fn starts() -> Vec<(String, u32)> {
    vec![
        ("Warrior".to_string(), 50459),
        ("Monk".to_string(), 44683),
        ("Witch".to_string(), 54447),
        ("Monk".to_string(), 1),
    ]
}

#[test]
fn active_nodes_keep_each_node_once_in_arrival_order() {
    let mut nodes = ActiveNodes::from_ids(&vec![5, 3, 5, 9, 3]);
    assert_eq!(nodes.ids(), &vec![5, 3, 9]);
    assert_eq!(nodes.len(), 3);
    assert!(nodes.insert(7));
    assert!(!nodes.insert(5));
    assert_eq!(nodes.ids(), &vec![5, 3, 9, 7]);
    assert!(nodes.contains(9));
    assert!(!nodes.contains(4));
    nodes.clear();
    assert_eq!(nodes.len(), 0);
    assert_eq!(ActiveNodes::new().len(), 0);
}

#[test]
fn an_override_replaces_the_allocation_and_drops_what_it_leaves_out() {
    let mut active = character("Witch", 1, &[1, 2, 3]);
    let reqs = vec![OverrideCharacterNodesReq(vec![3, 4, 4, 5]), OverrideCharacterNodesReq(vec![1, 6])];
    let overrides = override_char(&mut active, &reqs);
    assert_eq!(overrides.len(), 2);
    assert_eq!(overrides[0].activate, vec![NodeActivationReq(3), NodeActivationReq(4), NodeActivationReq(5)]);
    assert_eq!(overrides[0].deactivate, vec![NodeDeactivationReq(1), NodeDeactivationReq(2)]);
    assert_eq!(overrides[1].activate, vec![NodeActivationReq(1), NodeActivationReq(6)]);
    assert_eq!(overrides[1].deactivate, vec![NodeDeactivationReq(2), NodeDeactivationReq(3)]);
    assert_eq!(sorted(active.character.activated_node_ids.ids()), vec![1, 6]);
    assert_eq!(active.character.starting_node, 1);
}

#[test]
fn no_override_keeps_the_allocation() {
    let mut active = character("Witch", 1, &[1, 2]);
    let overrides = override_char(&mut active, &vec![]);
    assert!(overrides.is_empty());
    assert_eq!(active.character.activated_node_ids.ids(), &vec![1, 2]);
}

#[test]
fn a_character_is_updated_when_the_counts_agree() {
    let active = character("Witch", 1, &[1, 2, 3]);
    assert!(has_been_updated(&active, 3));
    assert!(!has_been_updated(&active, 2));
}

#[test]
fn starting_nodes_come_first_then_the_allocation() {
    let active = character("Witch", 54447, &[7, 8]);
    let mut root = RootNode(None);
    let reqs = activate_starting_nodes(&active, &mut root);
    assert_eq!(root.0, Some(54447));
    assert_eq!(reqs, vec![NodeActivationReq(54447), NodeActivationReq(7), NodeActivationReq(8)]);
    let mut root = RootNode(Some(3));
    let reqs = update_active_from_character(&active, &mut root);
    assert_eq!(root.0, Some(54447));
    assert_eq!(reqs.len(), 3);
}

#[test]
fn the_world_allocation_becomes_the_character_with_its_start() {
    let mut active = character("Witch", 10, &[1]);
    world_to_active_character(&mut active, &vec![4, 5, 4]);
    assert_eq!(sorted(active.character.activated_node_ids.ids()), vec![4, 5, 10]);
}

#[test]
fn a_class_starts_from_its_first_row_in_the_table() {
    assert_eq!(class_start_node(&starts(), "Monk"), 44683);
    assert_eq!(class_start_node(&starts(), "Warrior"), 50459);
    let mut active = character("Witch", 0, &[2]);
    let mut root = RootNode(None);
    set_starting_node_based_on_character_class(&mut active, &mut root, &starts());
    assert_eq!(active.character.starting_node, 54447);
    assert_eq!(root.0, Some(54447));
    assert_eq!(active.character.activated_node_ids.ids(), &vec![2]);
}

#[test]
fn the_last_class_request_wins() {
    let mut active = character("Witch", 0, &[]);
    assert!(handle_class_change(&mut active, &vec!["Monk".to_string(), "Ranger".to_string()]));
    assert_eq!(active.character.character_class, "Ranger");
    assert!(!handle_class_change(&mut active, &vec![]));
    assert_eq!(active.character.character_class, "Ranger");
}

#[test]
fn a_class_change_asks_for_a_clear_all_and_keeps_the_start_node() {
    let mut active = character("Witch", 7, &[7, 9]);
    assert!(handle_class_change(&mut active, &vec!["Monk".to_string()]));
    assert_eq!(active.character.starting_node, 7);
    assert_eq!(active.character.activated_node_ids.ids(), &vec![7, 9]);
}

#[test]
fn saving_sets_the_level_to_the_allocated_count() {
    let mut active = character("Witch", 0, &[]);
    sync_for_save(&mut active, &vec![3, 1, 3, 2]);
    assert_eq!(sorted(active.character.activated_node_ids.ids()), vec![1, 2, 3]);
    assert_eq!(active.character.level, 3);
    let many: Vec<u32> = (0..300).collect();
    sync_for_save(&mut active, &many);
    assert_eq!(active.character.level, (300 % 256) as u8);
}

#[test]
fn save_paths_follow_the_last_save_as() {
    let mut last = LastSaveLocation("a.toml".to_string());
    let path = save_location(
        &vec![SaveCharacterAsReq("b.toml".to_string()), SaveCharacterAsReq("c.toml".to_string())],
        false,
        &mut last,
    );
    assert_eq!(path, "c.toml");
    assert_eq!(last.0, "c.toml");
    assert_eq!(save_location(&vec![], true, &mut last), "c.toml");
    assert_eq!(save_location(&vec![], false, &mut last), DEFAULT_SAVE_PATH);
    assert_eq!(last.0, "c.toml");
}

#[test]
fn character_files_are_read_by_extension() {
    assert_eq!(load_format(Some("toml")), LoadFormat::Toml);
    assert_eq!(load_format(Some("xml")), LoadFormat::Xml);
    assert_eq!(load_format(Some("json")), LoadFormat::Unsupported("json".to_string()));
    assert_eq!(load_format(Some("TOML")), LoadFormat::Unsupported("TOML".to_string()));
    assert_eq!(load_format(None), LoadFormat::NoExtension);
}

#[test]
fn after_a_load_the_root_is_the_last_allocated_level_one_node() {
    let active = character("Witch", 0, &[30, 10, 99]);
    let mut root = RootNode(Some(1));
    reset_root_after_load(&active, &vec![10, 20, 30, 40], &mut root);
    assert_eq!(root.0, Some(30));
    let mut root = RootNode(Some(1));
    reset_root_after_load(&active, &vec![20, 40], &mut root);
    assert_eq!(root.0, Some(1));
}

#[test]
fn the_character_is_pushed_to_every_node_of_the_tree() {
    let active = character("Witch", 0, &[2, 4]);
    let (acts, deacts) = active_character_to_world(&active, &vec![1, 2, 3, 4]);
    assert_eq!(acts, vec![NodeActivationReq(2), NodeActivationReq(4)]);
    assert_eq!(deacts, vec![NodeDeactivationReq(1), NodeDeactivationReq(3)]);
}

#[test]
fn path_repair_flags_flip() {
    let mut repair = PathRepairRequired::default();
    assert!(!repair.0);
    repair.request_path_repair();
    assert!(repair.0);
    repair.set_unrequired();
    assert!(!repair.0);
    assert!(RootNode(Some(3)).is_set());
    assert!(!RootNode(None).is_set());
    let mut toggle = ToggleUi(false);
    toggle.flip();
    assert_eq!(toggle, ToggleUi(true));
}

#[test]
fn a_search_runs_from_five_bytes_on() {
    let state = SearchState { search_query: "Life".to_string(), open: true };
    assert!(!state.should_search());
    assert!(state.is_open());
    assert!(!state.is_closed());
    let state = SearchState { search_query: "Lifes".to_string(), open: false };
    assert!(state.should_search());
    assert!(state.is_closed());
    let state = SearchState { search_query: "éé".to_string(), open: false };
    assert!(!state.should_search());
    let state = SearchState { search_query: "ééé".to_string(), open: false };
    assert!(state.should_search());
}

#[test]
fn the_optimiser_is_busy_between_start_and_finish() {
    let mut optimiser = Optimiser { results: vec![], status: JobStatus::Available };
    assert!(optimiser.is_available());
    optimiser.set_busy();
    assert!(!optimiser.is_available());
    optimiser.set_available();
    assert_eq!(optimiser.status, JobStatus::Available);
}

#[test]
fn can_sort_virtual_path() {
    // A fixed scramble of many nodes and edges stands in for a shuffled tree.
    let nodes: Vec<u32> = (0..500u32).map(|k| (k * 7919 + 13) % 1009).collect();
    let edges: Vec<EdgeMarker> = (0..300u32).map(|k| EdgeMarker((k * 31) % 17, (k * 13) % 11)).collect();
    let mut vp = VirtualPath { nodes, edges };
    vp.sort();
    assert!(vp.nodes.windows(2).all(|w| w[0] <= w[1]));
    assert!(vp.edges.windows(2).all(|w| {
        let (s1, e1) = w[0].as_tuple();
        let (s2, e2) = w[1].as_tuple();
        s1 < s2 || (s1 == s2 && e1 <= e2)
    }));
}

#[test]
fn sort_orders_the_nodes_and_the_edges() {
    let mut vp = VirtualPath {
        nodes: vec![9, 2, 7, 2, 1],
        edges: vec![EdgeMarker(5, 6), EdgeMarker(1, 9), EdgeMarker(1, 2), EdgeMarker(5, 6)],
    };
    vp.sort();
    assert_eq!(vp.nodes, vec![1, 2, 2, 7, 9]);
    assert_eq!(vp.edges.iter().map(|e| e.as_tuple()).collect::<Vec<_>>(), vec![(1, 2), (1, 9), (5, 6), (5, 6)]);
    assert!(vp.contains_node(7));
    assert!(!vp.contains_node(3));
    assert!(vp.contains_edge(&EdgeMarker(9, 1)));
}

#[test]
fn the_node_scan_stops_at_the_first_larger_node() {
    let vp = VirtualPath { nodes: vec![5, 1, 3], edges: vec![] };
    assert!(vp.contains_node(5));
    assert!(!vp.contains_node(3));
}

#[test]
fn edges_are_looked_up_smaller_end_first() {
    let vp = VirtualPath { nodes: vec![], edges: vec![EdgeMarker(1, 9), EdgeMarker(2, 3)] };
    assert!(vp.contains_edge(&EdgeMarker(9, 1)));
    assert!(vp.contains_edge(&EdgeMarker(1, 9)));
    assert!(vp.contains_edge(&EdgeMarker(2, 3)));
    assert!(!vp.contains_edge(&EdgeMarker(1, 3)));
    let vp = VirtualPath { nodes: vec![], edges: vec![EdgeMarker(1, 2), EdgeMarker(2, 3)] };
    assert!(vp.contains_edge(&EdgeMarker(3, 2)));
    assert!(!vp.contains_edge(&EdgeMarker(4, 5)));
}

#[test]
fn clearing_a_virtual_path_empties_it() {
    let mut vp = VirtualPath { nodes: vec![1], edges: vec![EdgeMarker(1, 2)] };
    vp.clear();
    assert!(vp.nodes.is_empty() && vp.edges.is_empty());
    let vp = VirtualPath::default();
    assert!(vp.nodes.is_empty());
}
