use vstd::prelude::*;

use crate::config::{action_down, check_action, check_action_just_pressed, KeyCode, UserConfig};

verus! {

/// What the hotkeys ask for, in the order they are checked.
#[derive(Clone, Copy, Debug, PartialEq, Eq, Structural)]
pub enum HotkeyAction {
    /// Show or hide the search box.
    ToggleSearch,
    /// Show or hide the side panels.
    FlipUi,
    /// Move the camera by `dx`, `dy` steps (each -1, 0 or 1) of twenty times the drag sensitivity.
    MoveCamera { dx: i8, dy: i8 },
    /// Move the camera back to the origin.
    ResetCamera,
    /// Leave the program.
    Exit,
    /// Save the character.
    Save,
}

/// One step of a direction: 1 for `plus` alone, -1 for `minus` alone, 0 otherwise.
pub open spec fn step(plus: bool, minus: bool) -> i8 {
    if plus && !minus {
        1i8
    } else if minus && !plus {
        -1i8
    } else {
        0i8
    }
}

/// The hotkey actions of a frame: the bindings, the keys held and just pressed, whether
/// the search box is open and whether the interface holds the camera lock.
pub open spec fn hotkey_actions(
    controls: Map<Seq<char>, Seq<Seq<char>>>,
    held: Seq<KeyCode>,
    just: Seq<KeyCode>,
    search_open: bool,
    locked: bool,
) -> Seq<HotkeyAction> {
    only_if(action_down(controls, "search_for_node_by_name"@, just), HotkeyAction::ToggleSearch)
        + only_if(action_down(controls, "toggle_ui"@, held), HotkeyAction::FlipUi)
        + only_if(
        !locked,
        HotkeyAction::MoveCamera {
            dx: step(action_down(controls, "move_right"@, held), action_down(controls, "move_left"@, held)),
            dy: step(action_down(controls, "move_up"@, held), action_down(controls, "move_down"@, held)),
        },
    ) + only_if(action_down(controls, "camera_reset_home"@, just), HotkeyAction::ResetCamera) + only_if(
        action_down(controls, "exit"@, just),
        if !search_open {
            HotkeyAction::Exit
        } else {
            HotkeyAction::ToggleSearch
        },
    ) + only_if(action_down(controls, "save_active_charcter"@, just), HotkeyAction::Save)
}

/// Nothing, or just `action`.
pub open spec fn only_if(b: bool, action: HotkeyAction) -> Seq<HotkeyAction> {
    if b {
        seq![action]
    } else {
        seq![]
    }
}

proof fn lemma_contains_concat(a: Seq<HotkeyAction>, b: Seq<HotkeyAction>, x: HotkeyAction)
    ensures
        (a + b).contains(x) <==> (a.contains(x) || b.contains(x)),
{
    let ab = a + b;
    if ab.contains(x) {
        let k = choose|k: int| 0 <= k < ab.len() && ab[k] == x;
        if k < a.len() {
            assert(a[k] == x);
        } else {
            assert(b[k - a.len()] == x);
        }
    }
    if a.contains(x) {
        let k = choose|k: int| 0 <= k < a.len() && a[k] == x;
        assert(ab[k] == x);
    }
    if b.contains(x) {
        let k = choose|k: int| 0 <= k < b.len() && b[k] == x;
        assert(ab[k + a.len()] == x);
    }
}

proof fn lemma_only_if_contains(b: bool, action: HotkeyAction, x: HotkeyAction)
    ensures
        only_if(b, action).contains(x) <==> (b && x == action),
{
    if b {
        assert(only_if(b, action)[0] == action);
    }
}

/// Law: the camera takes a step in a frame exactly when the interface does not hold the
/// lock, and then only one: its horizontal part is the `move_right` action less the
/// `move_left` action (+1 for right alone, -1 for left alone, 0 for both or neither),
/// and its vertical part is `move_up` less `move_down`, each action counting 1 when one
/// of its keys is held.
pub proof fn the_camera_steps_with_the_arrow_actions(
    controls: Map<Seq<char>, Seq<Seq<char>>>,
    held: Seq<KeyCode>,
    just: Seq<KeyCode>,
    search_open: bool,
    locked: bool,
    dx: i8,
    dy: i8,
)
    ensures
        hotkey_actions(controls, held, just, search_open, locked).contains(HotkeyAction::MoveCamera { dx, dy }) <==> (
        !locked && dx as int == (if action_down(controls, "move_right"@, held) {
            1int
        } else {
            0int
        }) - (if action_down(controls, "move_left"@, held) {
            1int
        } else {
            0int
        }) && dy as int == (if action_down(controls, "move_up"@, held) {
            1int
        } else {
            0int
        }) - (if action_down(controls, "move_down"@, held) {
            1int
        } else {
            0int
        })),
{
    let x = HotkeyAction::MoveCamera { dx, dy };
    let a1 = only_if(action_down(controls, "search_for_node_by_name"@, just), HotkeyAction::ToggleSearch);
    let a2 = only_if(action_down(controls, "toggle_ui"@, held), HotkeyAction::FlipUi);
    let mv = HotkeyAction::MoveCamera {
        dx: step(action_down(controls, "move_right"@, held), action_down(controls, "move_left"@, held)),
        dy: step(action_down(controls, "move_up"@, held), action_down(controls, "move_down"@, held)),
    };
    let a3 = only_if(!locked, mv);
    let a4 = only_if(action_down(controls, "camera_reset_home"@, just), HotkeyAction::ResetCamera);
    let a5 = only_if(
        action_down(controls, "exit"@, just),
        if !search_open {
            HotkeyAction::Exit
        } else {
            HotkeyAction::ToggleSearch
        },
    );
    let a6 = only_if(action_down(controls, "save_active_charcter"@, just), HotkeyAction::Save);
    assert(hotkey_actions(controls, held, just, search_open, locked) == a1 + a2 + a3 + a4 + a5 + a6);
    lemma_contains_concat(a1 + a2 + a3 + a4 + a5, a6, x);
    lemma_contains_concat(a1 + a2 + a3 + a4, a5, x);
    lemma_contains_concat(a1 + a2 + a3, a4, x);
    lemma_contains_concat(a1 + a2, a3, x);
    lemma_contains_concat(a1, a2, x);
    lemma_only_if_contains(action_down(controls, "search_for_node_by_name"@, just), HotkeyAction::ToggleSearch, x);
    lemma_only_if_contains(action_down(controls, "toggle_ui"@, held), HotkeyAction::FlipUi, x);
    lemma_only_if_contains(!locked, mv, x);
    lemma_only_if_contains(action_down(controls, "camera_reset_home"@, just), HotkeyAction::ResetCamera, x);
    lemma_only_if_contains(
        action_down(controls, "exit"@, just),
        if !search_open {
            HotkeyAction::Exit
        } else {
            HotkeyAction::ToggleSearch
        },
        x,
    );
    lemma_only_if_contains(action_down(controls, "save_active_charcter"@, just), HotkeyAction::Save, x);
}

fn append_if(actions: &mut Vec<HotkeyAction>, b: bool, action: HotkeyAction)
    ensures
        final(actions)@ == old(actions)@ + only_if(b, action),
{
    if b {
        actions.push(action);
    }
    assert(actions@ =~= old(actions)@ + only_if(b, action));
}

fn step_exec(plus: bool, minus: bool) -> (s: i8)
    ensures
        s == step(plus, minus),
{
    if plus && !minus {
        1i8
    } else if minus && !plus {
        -1i8
    } else {
        0i8
    }
}

/// The hotkey actions of a frame, given the keys held and the keys just pressed. The
/// camera moves only while the interface does not hold the lock; the exit key closes
/// the search box when it is open and leaves the program otherwise.
pub fn handle_input(
    config: &UserConfig,
    held: &Vec<KeyCode>,
    just_pressed: &Vec<KeyCode>,
    search_open: bool,
    egui_has_lock: bool,
) -> (actions: Vec<HotkeyAction>)
    ensures
        actions@ == hotkey_actions(config.controls@, held@, just_pressed@, search_open, egui_has_lock),
{
    let search = check_action_just_pressed(config, "search_for_node_by_name", just_pressed);
    let toggle_ui = check_action(config, "toggle_ui", held);
    let right = check_action(config, "move_right", held);
    let left = check_action(config, "move_left", held);
    let up = check_action(config, "move_up", held);
    let down = check_action(config, "move_down", held);
    let home = check_action_just_pressed(config, "camera_reset_home", just_pressed);
    let exit = check_action_just_pressed(config, "exit", just_pressed);
    let save = check_action_just_pressed(config, "save_active_charcter", just_pressed);
    let mut actions: Vec<HotkeyAction> = Vec::new();
    append_if(&mut actions, search, HotkeyAction::ToggleSearch);
    append_if(&mut actions, toggle_ui, HotkeyAction::FlipUi);
    let dx = step_exec(right, left);
    let dy = step_exec(up, down);
    append_if(&mut actions, !egui_has_lock, HotkeyAction::MoveCamera { dx, dy });
    append_if(&mut actions, home, HotkeyAction::ResetCamera);
    append_if(&mut actions, exit, if !search_open { HotkeyAction::Exit } else { HotkeyAction::ToggleSearch });
    append_if(&mut actions, save, HotkeyAction::Save);
    assert(actions@ =~= hotkey_actions(config.controls@, held@, just_pressed@, search_open, egui_has_lock));
    actions
}

} // verus!
