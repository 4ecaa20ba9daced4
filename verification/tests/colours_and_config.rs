use poe_vis::colours::{parse_hex_color, parse_tailwind_color, tailwind_from_lowercase, Palette, Shade, TailwindColour};
use poe_vis::config::{check_action, check_action_just_pressed, key_from_lowercase, ColourMap, ControlMap, KeyCode, UserConfig};
use poe_vis::text::{append_decimal, append_signed, parse_decimal, sorted_distinct, str_contains, str_eq, str_less};
use poe_vis::ui::{attribute_colour_from_lowercase, label_colour, path_clipboard_text, AttributeColour};

fn config_with(controls: Vec<(&str, Vec<&str>)>) -> UserConfig {
    let entries: Vec<(String, Vec<String>)> = controls
        .into_iter()
        .map(|(a, ks)| (a.to_string(), ks.into_iter().map(|k| k.to_string()).collect()))
        .collect();
    UserConfig {
        colors: ColourMap::from_entries(vec![
            ("yellow".to_string(), "#FFFF00".to_string()),
            ("purple".to_string(), "#800080".to_string()),
            ("yellow".to_string(), "#EEEE00".to_string()),
        ]),
        controls: ControlMap::from_entries(entries),
    }
}

#[test]
fn tailwind_names_are_read_without_regard_to_case() {
    assert_eq!(
        parse_tailwind_color("BLUE-500"),
        TailwindColour::Named { palette: Palette::Blue, shade: Shade::S500 }
    );
    assert_eq!(
        parse_tailwind_color("Zinc-950"),
        TailwindColour::Named { palette: Palette::Zinc, shade: Shade::S950 }
    );
    assert_eq!(
        parse_tailwind_color("amber-50"),
        TailwindColour::Named { palette: Palette::Amber, shade: Shade::S50 }
    );
}

#[test]
fn unknown_tailwind_names_are_white() {
    assert_eq!(parse_tailwind_color("blue-550"), TailwindColour::White);
    assert_eq!(parse_tailwind_color("blue"), TailwindColour::White);
    assert_eq!(parse_tailwind_color(""), TailwindColour::White);
    assert_eq!(tailwind_from_lowercase("BLUE-500"), TailwindColour::White);
    assert_eq!(
        tailwind_from_lowercase("emerald-400"),
        TailwindColour::Named { palette: Palette::Emerald, shade: Shade::S400 }
    );
}

#[test]
fn hex_colours_split_into_bytes() {
    assert_eq!(parse_hex_color("#E95678"), Some((0xE9, 0x56, 0x78)));
    assert_eq!(parse_hex_color("#00ff7f"), Some((0x00, 0xFF, 0x7F)));
    assert_eq!(parse_hex_color("#000000"), Some((0, 0, 0)));
}

#[test]
fn hex_colours_with_a_plus_sign_read_the_rest() {
    assert_eq!(parse_hex_color("#+12345"), Some((0x01, 0x23, 0x45)));
}

#[test]
fn unreadable_hex_bodies_are_grey() {
    assert_eq!(parse_hex_color("#zzzzzz"), Some((0x80, 0x80, 0x80)));
    assert_eq!(parse_hex_color("#++1234"), Some((0x80, 0x80, 0x80)));
}

#[test]
fn hex_colours_need_a_hash_and_seven_bytes() {
    assert_eq!(parse_hex_color("E95678"), None);
    assert_eq!(parse_hex_color("#E9567"), None);
    assert_eq!(parse_hex_color("#E956789"), None);
    assert_eq!(parse_hex_color("E956789"), None);
}

#[test]
fn key_names_are_read_without_regard_to_case() {
    assert_eq!(UserConfig::key_from_string("A"), Some(KeyCode::KeyA));
    assert_eq!(UserConfig::key_from_string("z"), Some(KeyCode::KeyZ));
    assert_eq!(UserConfig::key_from_string("Up_Arrow"), Some(KeyCode::ArrowUp));
    assert_eq!(UserConfig::key_from_string("ESCAPE"), Some(KeyCode::Escape));
    assert_eq!(UserConfig::key_from_string("/"), Some(KeyCode::Slash));
    assert_eq!(UserConfig::key_from_string("f13"), None);
}

#[test]
fn esc_names_the_escape_key() {
    assert_eq!(UserConfig::key_from_string("esc"), Some(KeyCode::Escape));
    assert_eq!(UserConfig::key_from_string("ESC"), Some(KeyCode::Escape));
    assert_eq!(UserConfig::key_from_string("escape"), Some(KeyCode::Escape));
    assert_eq!(UserConfig::key_from_string("es"), None);
    assert_eq!(key_from_lowercase("A"), None);
    assert_eq!(key_from_lowercase("pagedown"), Some(KeyCode::PageDown));
}

#[test]
fn a_later_colour_binding_replaces_an_earlier_one() {
    let config = config_with(vec![]);
    assert_eq!(config.colour("yellow"), Some("#EEEE00".to_string()));
    assert_eq!(config.colour("purple"), Some("#800080".to_string()));
    assert_eq!(config.colour("green"), None);
}

#[test]
fn an_action_is_down_when_one_of_its_keys_is() {
    let config = config_with(vec![("move_up", vec!["W", "up_arrow"]), ("search", vec!["/"])]);
    assert!(check_action(&config, "move_up", &vec![KeyCode::ArrowUp]));
    assert!(check_action(&config, "move_up", &vec![KeyCode::Space, KeyCode::KeyW]));
    assert!(!check_action(&config, "move_up", &vec![KeyCode::KeyS]));
    assert!(!check_action(&config, "move_down", &vec![KeyCode::KeyW]));
    assert!(check_action_just_pressed(&config, "search", &vec![KeyCode::Slash]));
    assert!(!check_action_just_pressed(&config, "search", &vec![]));
}

#[test]
fn a_later_control_binding_replaces_an_earlier_one() {
    let config = config_with(vec![("exit", vec!["escape"]), ("exit", vec!["q"])]);
    assert!(!check_action(&config, "exit", &vec![KeyCode::Escape]));
    assert!(check_action(&config, "exit", &vec![KeyCode::KeyQ]));
}

#[test]
fn unknown_key_names_bind_nothing() {
    let config = config_with(vec![("zoom", vec!["scroll_wheel"])]);
    assert!(!check_action(&config, "zoom", &vec![KeyCode::KeyA, KeyCode::Space]));
}

#[test]
fn decimal_text_reads_as_usize_does() {
    assert_eq!(parse_decimal("0"), Some(0));
    assert_eq!(parse_decimal("12345"), Some(12345));
    assert_eq!(parse_decimal("+42"), Some(42));
    assert_eq!(parse_decimal("007"), Some(7));
    assert_eq!(parse_decimal(""), None);
    assert_eq!(parse_decimal("+"), None);
    assert_eq!(parse_decimal("-1"), None);
    assert_eq!(parse_decimal("12a"), None);
    assert_eq!(parse_decimal(" 12"), None);
    assert_eq!(parse_decimal("99999999999999999999999"), None);
    assert_eq!(parse_decimal(&usize::MAX.to_string()), Some(usize::MAX));
    for text in ["1", "+0", "65535", "x", "1_000", "+-3"] {
        assert_eq!(parse_decimal(text), text.parse::<usize>().ok());
    }
}

#[test]
fn strings_compare_by_their_characters() {
    assert!(str_eq("Witch", "Witch"));
    assert!(!str_eq("Witch", "witch"));
    assert!(!str_eq("Witch", "Witches"));
    assert!(str_eq("", ""));
}

#[test]
fn text_is_found_inside_text() {
    assert!(str_contains("+10 to Dexterity", "Dex"));
    assert!(str_contains("abc", ""));
    assert!(str_contains("", ""));
    assert!(!str_contains("", "a"));
    assert!(!str_contains("ab", "abc"));
    assert!(str_contains("aab", "ab"));
    assert!(!str_contains("a-b", "ab"));
}

#[test]
fn attribute_labels_take_their_attribute_colour() {
    assert_eq!(label_colour(false, "+10 to DEXTERITY"), Some(AttributeColour::Green));
    assert_eq!(label_colour(false, "+5 to Strength"), Some(AttributeColour::Red));
    assert_eq!(label_colour(false, "Intelligence"), Some(AttributeColour::Blue));
    assert_eq!(label_colour(false, "Strength and Dexterity"), Some(AttributeColour::Green));
    assert_eq!(label_colour(false, "Life"), Some(AttributeColour::White));
    assert_eq!(label_colour(true, "Dexterity"), None);
}

#[test]
fn numbers_print_in_decimal() {
    for n in [0u64, 7, 10, 99, 100, 31765, u32::MAX as u64, u64::MAX] {
        let mut out = "#".to_string();
        append_decimal(&mut out, n);
        assert_eq!(out, format!("#{}", n));
    }
}

#[test]
fn the_copied_path_lists_every_allocated_node() {
    assert_eq!(path_clipboard_text(&vec![5, 7]), "[5, 7]");
    assert_eq!(path_clipboard_text(&vec![31765, 1, 722]), "[31765, 1, 722]");
    assert_eq!(path_clipboard_text(&vec![1]), "[1]");
    assert_eq!(path_clipboard_text(&vec![]), "[]");
    let path = vec![5u32, 0, 4000000000];
    assert_eq!(path_clipboard_text(&path), format!("{:?}", path));
}

#[test]
fn texts_order_as_str_does() {
    let words = ["", "a", "ab", "b", "B", "é", "z", "Life", "life", "Lif"];
    for a in words {
        for b in words {
            assert_eq!(str_less(a, b), a < b, "{a:?} < {b:?}");
        }
    }
}

#[test]
fn stat_names_are_sorted_and_each_kept_once() {
    let names: Vec<String> = ["Mana", "Life", "Armour", "Life", "Evasion", "Mana"].iter().map(|s| s.to_string()).collect();
    let mut expected = names.clone();
    expected.sort();
    expected.dedup();
    assert_eq!(sorted_distinct(&names), expected);
    assert!(sorted_distinct(&vec![]).is_empty());
}

#[test]
fn signed_numbers_print_with_their_sign() {
    for n in [0i64, 5, -5, -10, 1234, i64::MAX, i64::MIN] {
        let mut out = String::new();
        append_signed(&mut out, n);
        assert_eq!(out, n.to_string());
    }
}

#[test]
fn formatted_colours_parse_back() {
    for (r, g, b) in [(0u8, 0u8, 0u8), (255, 255, 255), (0x12, 0xab, 0xf0), (1, 2, 3), (0x80, 0x7f, 0x0a)] {
        assert_eq!(parse_hex_color(&format!("#{:02X}{:02X}{:02X}", r, g, b)), Some((r, g, b)));
        assert_eq!(parse_hex_color(&format!("#{:02x}{:02x}{:02x}", r, g, b)), Some((r, g, b)));
    }
}

#[test]
fn lower_case_attribute_names_pick_their_colour() {
    assert_eq!(attribute_colour_from_lowercase("+5 to dexterity"), AttributeColour::Green);
    assert_eq!(attribute_colour_from_lowercase("+5 to strength and dexterity"), AttributeColour::Green);
    assert_eq!(attribute_colour_from_lowercase("+5 to strength"), AttributeColour::Red);
    assert_eq!(attribute_colour_from_lowercase("+5 to intelligence"), AttributeColour::Blue);
    assert_eq!(attribute_colour_from_lowercase("+5 to Strength"), AttributeColour::White);
    assert_eq!(attribute_colour_from_lowercase("life"), AttributeColour::White);
}
