use std::collections::VecDeque;

use poe_vis::characters::{ActiveCharacter, ActiveNodes, Character};
use poe_vis::config::{ColourMap, ControlMap, KeyCode, UserConfig};
use poe_vis::events::{NodeActivationReq, NodeDeactivationReq};
use poe_vis::hotkeys::{handle_input, HotkeyAction};
use poe_vis::mouse::{
    handle_node_clicks, hover_ended, hover_started, node_info_text, Click, ClickRequest, GameColour, HoverStart, HoverTarget,
    NodeUnderPointer, PointerButton,
};
use poe_vis::remote::{
    params_fit, parse_edge_ids, parse_edge_with_colour, parse_material, parse_node_colour, parse_node_id,
    parse_node_with_colour, ArgKind, RpcParams, RpcValue,
};
use poe_vis::resources::{JobStatus, MouseSelecetedNodeHistory, Optimiser, PathRepairRequired, RootNode, SearchState};
use poe_vis::search::{cleanup_search_results, mark_matches, process_searchbox_visibility_toggle};
use poe_vis::ui::{
    adopt_optimised_path, change_class, group_stats_by_name, optimise_disabled, path_preview_nodes, points_spent, Toggles,
};

fn controls(bindings: &[(&str, &[&str])]) -> UserConfig {
    UserConfig {
        colors: ColourMap::from_entries(vec![]),
        controls: ControlMap::from_entries(
            bindings.iter().map(|(a, ks)| (a.to_string(), ks.iter().map(|k| k.to_string()).collect())).collect(),
        ),
    }
}

fn default_controls() -> UserConfig {
    controls(&[
        ("search_for_node_by_name", &["/"]),
        ("toggle_ui", &["u"]),
        ("move_right", &["d"]),
        ("move_left", &["a"]),
        ("move_up", &["w"]),
        ("move_down", &["s"]),
        ("camera_reset_home", &["home"]),
        ("exit", &["escape"]),
        ("save_active_charcter", &["p"]),
    ])
}

fn click(button: PointerButton, node: u32, inactive: bool, active: bool) -> Click {
    Click { button, target: Some(NodeUnderPointer { node, inactive, active }) }
}

fn ranger() -> ActiveCharacter {
    ActiveCharacter {
        character: Character {
            character_class: "Ranger".to_string(),
            name: "Tester".to_string(),
            activated_node_ids: ActiveNodes::from_ids(&vec![1, 2, 3]),
            date_created: "today".to_string(),
            level: 3,
            quest_passive_skills: 0,
            starting_node: 1,
        },
    }
}

#[test]
fn the_search_box_toggles_and_cleans_up() {
    let mut state = SearchState { search_query: "life".to_string(), open: false };
    process_searchbox_visibility_toggle(&mut state);
    assert!(state.open);
    assert_eq!(state.search_query, "life");
    assert!(!cleanup_search_results(&mut state));
    assert_eq!(state.search_query, "life");
    process_searchbox_visibility_toggle(&mut state);
    assert!(cleanup_search_results(&mut state));
    assert_eq!(state.search_query, "");
    let mut state = SearchState { search_query: String::new(), open: true };
    assert!(cleanup_search_results(&mut state));
}

#[test]
fn a_search_marks_the_matches_and_unmarks_the_stale() {
    let state = SearchState { search_query: "maximum".to_string(), open: true };
    let marks = mark_matches(&state, &vec![3, 5], &vec![1, 3, 9], &vec![5, 6, 3]).expect("long enough");
    assert_eq!(marks.unmark, vec![0, 2]);
    assert_eq!(marks.mark, vec![0, 2]);
    let short = SearchState { search_query: "max".to_string(), open: true };
    assert!(mark_matches(&short, &vec![3], &vec![], &vec![3]).is_none());
}

#[test]
fn primary_clicks_allocate_or_unallocate_and_are_remembered() {
    let root = RootNode(Some(1));
    let mut history = MouseSelecetedNodeHistory(VecDeque::from(vec![7]));
    let mut repair = PathRepairRequired(false);
    let clicks = vec![
        click(PointerButton::Primary, 5, true, false),
        click(PointerButton::Secondary, 6, true, false),
        click(PointerButton::Primary, 8, false, true),
        click(PointerButton::Primary, 9, true, true),
        Click { button: PointerButton::Primary, target: None },
    ];
    let reqs = handle_node_clicks(&root, &mut history, &mut repair, &clicks);
    assert_eq!(
        reqs,
        vec![ClickRequest::Activate(NodeActivationReq(5)), ClickRequest::Deactivate(NodeDeactivationReq(8))]
    );
    assert_eq!(history.0, VecDeque::from(vec![7, 5, 8]));
    assert!(repair.0);
}

#[test]
fn without_a_root_clicks_only_unallocate() {
    let root = RootNode(None);
    let mut history = MouseSelecetedNodeHistory(VecDeque::new());
    let mut repair = PathRepairRequired(false);
    let clicks = vec![click(PointerButton::Primary, 5, true, false)];
    let reqs = handle_node_clicks(&root, &mut history, &mut repair, &clicks);
    assert!(reqs.is_empty());
    assert_eq!(history.0, VecDeque::from(vec![5]));
    assert!(repair.0);
    let mut repair = PathRepairRequired(false);
    let reqs = handle_node_clicks(&root, &mut history, &mut repair, &vec![]);
    assert!(reqs.is_empty());
    assert!(!repair.0);
}

#[test]
fn hovering_colours_nodes_by_their_state() {
    assert_eq!(
        hover_started(Some(HoverTarget { node: 4, hovered: false, active: true })),
        HoverStart::Begin { node: 4, colour: GameColour::Cyan }
    );
    assert_eq!(
        hover_started(Some(HoverTarget { node: 4, hovered: false, active: false })),
        HoverStart::Begin { node: 4, colour: GameColour::Orange }
    );
    assert_eq!(hover_started(Some(HoverTarget { node: 4, hovered: true, active: false })), HoverStart::AlreadyHovered);
    assert_eq!(hover_started(None), HoverStart::ClearVirtualPath);
    assert_eq!(hover_ended(Some(HoverTarget { node: 4, hovered: true, active: true })), Some(GameColour::NodeActivated));
    assert_eq!(hover_ended(Some(HoverTarget { node: 4, hovered: true, active: false })), Some(GameColour::NodeBase));
    assert_eq!(hover_ended(Some(HoverTarget { node: 4, hovered: false, active: false })), None);
    assert_eq!(hover_ended(None), None);
}

#[test]
fn hotkeys_come_in_their_checking_order() {
    let config = default_controls();
    let actions = handle_input(&config, &vec![KeyCode::KeyD, KeyCode::KeyW, KeyCode::KeyU], &vec![KeyCode::Slash], false, false);
    assert_eq!(
        actions,
        vec![HotkeyAction::ToggleSearch, HotkeyAction::FlipUi, HotkeyAction::MoveCamera { dx: 1, dy: 1 }]
    );
    let actions = handle_input(&config, &vec![KeyCode::KeyA, KeyCode::KeyD, KeyCode::KeyS], &vec![], false, false);
    assert_eq!(actions, vec![HotkeyAction::MoveCamera { dx: 0, dy: -1 }]);
}

#[test]
fn the_camera_does_not_move_while_the_interface_holds_the_lock() {
    let config = default_controls();
    let actions = handle_input(&config, &vec![KeyCode::KeyA], &vec![KeyCode::Home, KeyCode::KeyP], false, true);
    assert_eq!(actions, vec![HotkeyAction::ResetCamera, HotkeyAction::Save]);
}

#[test]
fn escape_closes_an_open_search_before_it_exits() {
    let config = default_controls();
    assert_eq!(
        handle_input(&config, &vec![], &vec![KeyCode::Escape], true, true),
        vec![HotkeyAction::ToggleSearch]
    );
    assert_eq!(handle_input(&config, &vec![], &vec![KeyCode::Escape], false, true), vec![HotkeyAction::Exit]);
}

#[test]
fn request_parameters_are_checked_then_read() {
    let params = RpcParams::Array(vec![RpcValue::Unsigned(42), RpcValue::Text("red".to_string())]);
    assert!(params_fit(&params, &vec![ArgKind::Unsigned, ArgKind::Text]));
    assert!(params_fit(&params, &vec![ArgKind::Unsigned]));
    assert!(!params_fit(&params, &vec![ArgKind::Text]));
    assert!(!params_fit(&params, &vec![ArgKind::Unsigned, ArgKind::Text, ArgKind::Text]));
    assert!(!params_fit(&RpcParams::Other, &vec![]));
    assert!(params_fit(&RpcParams::Array(vec![]), &vec![]));
    assert_eq!(parse_node_id(&params), 42);
    assert_eq!(parse_node_colour(&params), (42, "red".to_string()));
    assert_eq!(parse_node_with_colour(&params), (42, "red".to_string()));
}

#[test]
fn node_identifiers_keep_their_low_bits() {
    let params = RpcParams::Array(vec![RpcValue::Unsigned((1u64 << 32) + 7), RpcValue::Unsigned(9)]);
    assert_eq!(parse_node_id(&params), 7);
    assert_eq!(parse_edge_ids(&params), (7, 9));
    let params = RpcParams::Array(vec![
        RpcValue::Unsigned(1),
        RpcValue::Unsigned(2),
        RpcValue::Text("blue-500".to_string()),
    ]);
    assert_eq!(parse_edge_with_colour(&params), (1, 2, "blue-500".to_string()));
}

#[test]
fn a_material_is_a_string_or_empty() {
    assert_eq!(parse_material(Some(&RpcValue::Text("amber-300".to_string()))), "amber-300");
    assert_eq!(parse_material(Some(&RpcValue::Unsigned(3))), "");
    assert_eq!(parse_material(Some(&RpcValue::Other)), "");
    assert_eq!(parse_material(None), "");
}

#[test]
fn a_new_class_starts_over_from_its_start_node() {
    let mut active = ranger();
    let mut repair = PathRepairRequired(false);
    let starts = vec![("Ranger".to_string(), 1u32), ("Duelist".to_string(), 38129u32)];
    change_class(&mut active, "Duelist".to_string(), &starts, &mut repair);
    assert_eq!(active.character.character_class, "Duelist");
    assert_eq!(active.character.starting_node, 38129);
    assert_eq!(active.character.activated_node_ids.len(), 0);
    assert!(repair.0);
}

#[test]
fn points_count_the_start_node() {
    assert_eq!(points_spent(0), 1);
    assert_eq!(points_spent(122), 123);
}

#[test]
fn an_optimised_path_replaces_the_allocation() {
    let mut active = ranger();
    let mut repair = PathRepairRequired(false);
    adopt_optimised_path(&mut active, &vec![1, 5, 6, 5], &mut repair);
    let mut ids = active.character.activated_node_ids.ids().clone();
    ids.sort();
    assert_eq!(ids, vec![1, 5, 6]);
    assert_eq!(active.character.starting_node, 1);
    assert!(repair.0);
}

#[test]
fn the_optimiser_takes_one_request_at_a_time() {
    let mut optimiser = Optimiser { results: vec![vec![1]], status: JobStatus::Available };
    assert!(optimiser.try_start());
    assert_eq!(optimiser.status, JobStatus::Busy);
    assert!(!optimiser.try_start());
    optimiser.finish(Some(vec![vec![2, 3], vec![4]]));
    assert_eq!(optimiser.status, JobStatus::Available);
    assert_eq!(optimiser.results, vec![vec![2, 3], vec![4]]);
    optimiser.finish(None);
    assert_eq!(optimiser.results, vec![vec![2, 3], vec![4]]);
}

#[test]
fn at_most_one_stat_is_toggled() {
    let mut toggles = Toggles::new();
    assert_eq!(toggles.delta, 1);
    assert_eq!(toggles.selected(), None);
    toggles.select("Life".to_string(), true);
    assert!(toggles.is_toggled("Life"));
    toggles.select("Mana".to_string(), true);
    assert!(toggles.is_toggled("Mana"));
    assert!(!toggles.is_toggled("Life"));
    assert_eq!(toggles.selected(), Some("Mana".to_string()));
    toggles.select("Mana".to_string(), false);
    assert_eq!(toggles.selected(), None);
    assert!(!toggles.is_toggled("Armour"));
}

#[test]
fn optimising_needs_a_toggled_stat_and_a_free_optimiser() {
    let mut toggles = Toggles::new();
    let mut optimiser = Optimiser { results: vec![], status: JobStatus::Available };
    assert!(optimise_disabled(&toggles, &optimiser));
    toggles.select("Life".to_string(), true);
    assert!(!optimise_disabled(&toggles, &optimiser));
    optimiser.set_busy();
    assert!(optimise_disabled(&toggles, &optimiser));
}

#[test]
fn a_path_preview_shows_only_unallocated_nodes() {
    assert_eq!(path_preview_nodes(&vec![3, 9, 1, 8], &ranger()), vec![9, 8]);
    assert!(path_preview_nodes(&vec![1, 2], &ranger()).is_empty());
}

#[test]
fn stats_are_grouped_by_name_in_name_order() {
    let names: Vec<String> = ["Life", "Armour", "Life", "Mana", "Armour", "Life"].iter().map(|s| s.to_string()).collect();
    let groups = group_stats_by_name(&names);
    let summary: Vec<(String, Vec<usize>)> = groups.into_iter().map(|g| (g.name, g.positions)).collect();
    assert_eq!(
        summary,
        vec![
            ("Armour".to_string(), vec![1, 4]),
            ("Life".to_string(), vec![0, 2, 5]),
            ("Mana".to_string(), vec![3]),
        ]
    );
    assert!(group_stats_by_name(&vec![]).is_empty());
}

#[test]
fn the_hover_text_counts_the_previewed_path() {
    assert_eq!(node_info_text(5, "Life", 3, 5), "\nNode 5:Life\nTotalCost :3\nDelta: -2");
    for (id, name, vp, active) in [(0u32, "", 0usize, 0usize), (44683, "Monk", 12, 7), (7, "é", 0, 123)] {
        let expected = format!(
            "\nNode {}:{}\nTotalCost :{}\nDelta: {}",
            id,
            name,
            vp,
            (vp as isize - active as isize)
        );
        assert_eq!(node_info_text(id, name, vp, active), expected);
    }
}
