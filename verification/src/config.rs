use vstd::prelude::*;

use crate::text::{lowercase, lowercase_of, str_eq, texts};

verus! {

/// The keys that the configuration can bind.
#[derive(Clone, Copy, Debug, PartialEq, Eq, Structural)]
pub enum KeyCode {
    KeyA,
    KeyB,
    KeyC,
    KeyD,
    KeyE,
    KeyF,
    KeyG,
    KeyH,
    KeyI,
    KeyJ,
    KeyK,
    KeyL,
    KeyM,
    KeyN,
    KeyO,
    KeyP,
    KeyQ,
    KeyR,
    KeyS,
    KeyT,
    KeyU,
    KeyV,
    KeyW,
    KeyX,
    KeyY,
    KeyZ,
    ArrowUp,
    ArrowDown,
    ArrowLeft,
    ArrowRight,
    Space,
    Enter,
    Escape,
    Backspace,
    Tab,
    Home,
    End,
    PageUp,
    PageDown,
    Insert,
    Delete,
    Slash,
}

/// The key that a lower-case key name in the configuration names, if any: a letter,
/// an arrow (`up_arrow`, ...), a named key, or `/`. The escape key answers to both
/// `escape` and the short `esc` that the sample configuration binds.
pub open spec fn key_named(name: Seq<char>) -> Option<KeyCode> {
    if name == "a"@ {
        Some(KeyCode::KeyA)
    } else if name == "b"@ {
        Some(KeyCode::KeyB)
    } else if name == "c"@ {
        Some(KeyCode::KeyC)
    } else if name == "d"@ {
        Some(KeyCode::KeyD)
    } else if name == "e"@ {
        Some(KeyCode::KeyE)
    } else if name == "f"@ {
        Some(KeyCode::KeyF)
    } else if name == "g"@ {
        Some(KeyCode::KeyG)
    } else if name == "h"@ {
        Some(KeyCode::KeyH)
    } else if name == "i"@ {
        Some(KeyCode::KeyI)
    } else if name == "j"@ {
        Some(KeyCode::KeyJ)
    } else if name == "k"@ {
        Some(KeyCode::KeyK)
    } else if name == "l"@ {
        Some(KeyCode::KeyL)
    } else if name == "m"@ {
        Some(KeyCode::KeyM)
    } else if name == "n"@ {
        Some(KeyCode::KeyN)
    } else if name == "o"@ {
        Some(KeyCode::KeyO)
    } else if name == "p"@ {
        Some(KeyCode::KeyP)
    } else if name == "q"@ {
        Some(KeyCode::KeyQ)
    } else if name == "r"@ {
        Some(KeyCode::KeyR)
    } else if name == "s"@ {
        Some(KeyCode::KeyS)
    } else if name == "t"@ {
        Some(KeyCode::KeyT)
    } else if name == "u"@ {
        Some(KeyCode::KeyU)
    } else if name == "v"@ {
        Some(KeyCode::KeyV)
    } else if name == "w"@ {
        Some(KeyCode::KeyW)
    } else if name == "x"@ {
        Some(KeyCode::KeyX)
    } else if name == "y"@ {
        Some(KeyCode::KeyY)
    } else if name == "z"@ {
        Some(KeyCode::KeyZ)
    } else if name == "up_arrow"@ {
        Some(KeyCode::ArrowUp)
    } else if name == "down_arrow"@ {
        Some(KeyCode::ArrowDown)
    } else if name == "left_arrow"@ {
        Some(KeyCode::ArrowLeft)
    } else if name == "right_arrow"@ {
        Some(KeyCode::ArrowRight)
    } else if name == "space"@ {
        Some(KeyCode::Space)
    } else if name == "enter"@ {
        Some(KeyCode::Enter)
    } else if name == "escape"@ || name == "esc"@ {
        Some(KeyCode::Escape)
    } else if name == "backspace"@ {
        Some(KeyCode::Backspace)
    } else if name == "tab"@ {
        Some(KeyCode::Tab)
    } else if name == "home"@ {
        Some(KeyCode::Home)
    } else if name == "end"@ {
        Some(KeyCode::End)
    } else if name == "pageup"@ {
        Some(KeyCode::PageUp)
    } else if name == "pagedown"@ {
        Some(KeyCode::PageDown)
    } else if name == "insert"@ {
        Some(KeyCode::Insert)
    } else if name == "delete"@ {
        Some(KeyCode::Delete)
    } else if name == "/"@ {
        Some(KeyCode::Slash)
    } else {
        None
    }
}

/// The name of a key in the configuration, lower case.
pub open spec fn key_name(key: KeyCode) -> Seq<char> {
    match key {
        KeyCode::KeyA => "a"@,
        KeyCode::KeyB => "b"@,
        KeyCode::KeyC => "c"@,
        KeyCode::KeyD => "d"@,
        KeyCode::KeyE => "e"@,
        KeyCode::KeyF => "f"@,
        KeyCode::KeyG => "g"@,
        KeyCode::KeyH => "h"@,
        KeyCode::KeyI => "i"@,
        KeyCode::KeyJ => "j"@,
        KeyCode::KeyK => "k"@,
        KeyCode::KeyL => "l"@,
        KeyCode::KeyM => "m"@,
        KeyCode::KeyN => "n"@,
        KeyCode::KeyO => "o"@,
        KeyCode::KeyP => "p"@,
        KeyCode::KeyQ => "q"@,
        KeyCode::KeyR => "r"@,
        KeyCode::KeyS => "s"@,
        KeyCode::KeyT => "t"@,
        KeyCode::KeyU => "u"@,
        KeyCode::KeyV => "v"@,
        KeyCode::KeyW => "w"@,
        KeyCode::KeyX => "x"@,
        KeyCode::KeyY => "y"@,
        KeyCode::KeyZ => "z"@,
        KeyCode::ArrowUp => "up_arrow"@,
        KeyCode::ArrowDown => "down_arrow"@,
        KeyCode::ArrowLeft => "left_arrow"@,
        KeyCode::ArrowRight => "right_arrow"@,
        KeyCode::Space => "space"@,
        KeyCode::Enter => "enter"@,
        KeyCode::Escape => "escape"@,
        KeyCode::Backspace => "backspace"@,
        KeyCode::Tab => "tab"@,
        KeyCode::Home => "home"@,
        KeyCode::End => "end"@,
        KeyCode::PageUp => "pageup"@,
        KeyCode::PageDown => "pagedown"@,
        KeyCode::Insert => "insert"@,
        KeyCode::Delete => "delete"@,
        KeyCode::Slash => "/"@,
    }
}

/// Law: a key name names one key, and each key has one name, but for the short `esc`
/// beside `escape`: two names that give the same key are the same name or those two.
pub proof fn key_names_are_distinct(a: Seq<char>, b: Seq<char>)
    requires
        key_named(a) is Some,
        key_named(a) == key_named(b),
    ensures
        a == key_name(key_named(a)->0) || (key_named(a) == Some(KeyCode::Escape) && a == "esc"@),
        a == b || (key_named(a) == Some(KeyCode::Escape) && (a == "esc"@ || b == "esc"@)),
{
}

/// Law: every key can be bound: the name of each key reads back as that key.
pub proof fn every_key_name_reads_back(key: KeyCode)
    ensures
        key_named(key_name(key)) == Some(key),
{
    // Each name's length and first two letters tell it from the others.
    reveal_strlit("a");
    assert("a"@.len() == 1 && "a"@[0] == 'a');
    reveal_strlit("b");
    assert("b"@.len() == 1 && "b"@[0] == 'b');
    reveal_strlit("c");
    assert("c"@.len() == 1 && "c"@[0] == 'c');
    reveal_strlit("d");
    assert("d"@.len() == 1 && "d"@[0] == 'd');
    reveal_strlit("e");
    assert("e"@.len() == 1 && "e"@[0] == 'e');
    reveal_strlit("f");
    assert("f"@.len() == 1 && "f"@[0] == 'f');
    reveal_strlit("g");
    assert("g"@.len() == 1 && "g"@[0] == 'g');
    reveal_strlit("h");
    assert("h"@.len() == 1 && "h"@[0] == 'h');
    reveal_strlit("i");
    assert("i"@.len() == 1 && "i"@[0] == 'i');
    reveal_strlit("j");
    assert("j"@.len() == 1 && "j"@[0] == 'j');
    reveal_strlit("k");
    assert("k"@.len() == 1 && "k"@[0] == 'k');
    reveal_strlit("l");
    assert("l"@.len() == 1 && "l"@[0] == 'l');
    reveal_strlit("m");
    assert("m"@.len() == 1 && "m"@[0] == 'm');
    reveal_strlit("n");
    assert("n"@.len() == 1 && "n"@[0] == 'n');
    reveal_strlit("o");
    assert("o"@.len() == 1 && "o"@[0] == 'o');
    reveal_strlit("p");
    assert("p"@.len() == 1 && "p"@[0] == 'p');
    reveal_strlit("q");
    assert("q"@.len() == 1 && "q"@[0] == 'q');
    reveal_strlit("r");
    assert("r"@.len() == 1 && "r"@[0] == 'r');
    reveal_strlit("s");
    assert("s"@.len() == 1 && "s"@[0] == 's');
    reveal_strlit("t");
    assert("t"@.len() == 1 && "t"@[0] == 't');
    reveal_strlit("u");
    assert("u"@.len() == 1 && "u"@[0] == 'u');
    reveal_strlit("v");
    assert("v"@.len() == 1 && "v"@[0] == 'v');
    reveal_strlit("w");
    assert("w"@.len() == 1 && "w"@[0] == 'w');
    reveal_strlit("x");
    assert("x"@.len() == 1 && "x"@[0] == 'x');
    reveal_strlit("y");
    assert("y"@.len() == 1 && "y"@[0] == 'y');
    reveal_strlit("z");
    assert("z"@.len() == 1 && "z"@[0] == 'z');
    reveal_strlit("up_arrow");
    assert("up_arrow"@.len() == 8 && "up_arrow"@[0] == 'u' && "up_arrow"@[1] == 'p');
    reveal_strlit("down_arrow");
    assert("down_arrow"@.len() == 10 && "down_arrow"@[0] == 'd' && "down_arrow"@[1] == 'o');
    reveal_strlit("left_arrow");
    assert("left_arrow"@.len() == 10 && "left_arrow"@[0] == 'l' && "left_arrow"@[1] == 'e');
    reveal_strlit("right_arrow");
    assert("right_arrow"@.len() == 11 && "right_arrow"@[0] == 'r' && "right_arrow"@[1] == 'i');
    reveal_strlit("space");
    assert("space"@.len() == 5 && "space"@[0] == 's' && "space"@[1] == 'p');
    reveal_strlit("enter");
    assert("enter"@.len() == 5 && "enter"@[0] == 'e' && "enter"@[1] == 'n');
    reveal_strlit("escape");
    assert("escape"@.len() == 6 && "escape"@[0] == 'e' && "escape"@[1] == 's');
    reveal_strlit("esc");
    assert("esc"@.len() == 3 && "esc"@[0] == 'e' && "esc"@[1] == 's');
    reveal_strlit("backspace");
    assert("backspace"@.len() == 9 && "backspace"@[0] == 'b' && "backspace"@[1] == 'a');
    reveal_strlit("tab");
    assert("tab"@.len() == 3 && "tab"@[0] == 't' && "tab"@[1] == 'a');
    reveal_strlit("home");
    assert("home"@.len() == 4 && "home"@[0] == 'h' && "home"@[1] == 'o');
    reveal_strlit("end");
    assert("end"@.len() == 3 && "end"@[0] == 'e' && "end"@[1] == 'n');
    reveal_strlit("pageup");
    assert("pageup"@.len() == 6 && "pageup"@[0] == 'p' && "pageup"@[1] == 'a');
    reveal_strlit("pagedown");
    assert("pagedown"@.len() == 8 && "pagedown"@[0] == 'p' && "pagedown"@[1] == 'a');
    reveal_strlit("insert");
    assert("insert"@.len() == 6 && "insert"@[0] == 'i' && "insert"@[1] == 'n');
    reveal_strlit("delete");
    assert("delete"@.len() == 6 && "delete"@[0] == 'd' && "delete"@[1] == 'e');
    reveal_strlit("/");
    assert("/"@.len() == 1 && "/"@[0] == '/');
}

/// The key that an already lower-case key name names, if any.
pub fn key_from_lowercase(name: &str) -> (key: Option<KeyCode>)
    ensures
        key == key_named(name@),
{
    if str_eq(name, "a") {
        Some(KeyCode::KeyA)
    } else if str_eq(name, "b") {
        Some(KeyCode::KeyB)
    } else if str_eq(name, "c") {
        Some(KeyCode::KeyC)
    } else if str_eq(name, "d") {
        Some(KeyCode::KeyD)
    } else if str_eq(name, "e") {
        Some(KeyCode::KeyE)
    } else if str_eq(name, "f") {
        Some(KeyCode::KeyF)
    } else if str_eq(name, "g") {
        Some(KeyCode::KeyG)
    } else if str_eq(name, "h") {
        Some(KeyCode::KeyH)
    } else if str_eq(name, "i") {
        Some(KeyCode::KeyI)
    } else if str_eq(name, "j") {
        Some(KeyCode::KeyJ)
    } else if str_eq(name, "k") {
        Some(KeyCode::KeyK)
    } else if str_eq(name, "l") {
        Some(KeyCode::KeyL)
    } else if str_eq(name, "m") {
        Some(KeyCode::KeyM)
    } else if str_eq(name, "n") {
        Some(KeyCode::KeyN)
    } else if str_eq(name, "o") {
        Some(KeyCode::KeyO)
    } else if str_eq(name, "p") {
        Some(KeyCode::KeyP)
    } else if str_eq(name, "q") {
        Some(KeyCode::KeyQ)
    } else if str_eq(name, "r") {
        Some(KeyCode::KeyR)
    } else if str_eq(name, "s") {
        Some(KeyCode::KeyS)
    } else if str_eq(name, "t") {
        Some(KeyCode::KeyT)
    } else if str_eq(name, "u") {
        Some(KeyCode::KeyU)
    } else if str_eq(name, "v") {
        Some(KeyCode::KeyV)
    } else if str_eq(name, "w") {
        Some(KeyCode::KeyW)
    } else if str_eq(name, "x") {
        Some(KeyCode::KeyX)
    } else if str_eq(name, "y") {
        Some(KeyCode::KeyY)
    } else if str_eq(name, "z") {
        Some(KeyCode::KeyZ)
    } else if str_eq(name, "up_arrow") {
        Some(KeyCode::ArrowUp)
    } else if str_eq(name, "down_arrow") {
        Some(KeyCode::ArrowDown)
    } else if str_eq(name, "left_arrow") {
        Some(KeyCode::ArrowLeft)
    } else if str_eq(name, "right_arrow") {
        Some(KeyCode::ArrowRight)
    } else if str_eq(name, "space") {
        Some(KeyCode::Space)
    } else if str_eq(name, "enter") {
        Some(KeyCode::Enter)
    } else if str_eq(name, "escape") || str_eq(name, "esc") {
        Some(KeyCode::Escape)
    } else if str_eq(name, "backspace") {
        Some(KeyCode::Backspace)
    } else if str_eq(name, "tab") {
        Some(KeyCode::Tab)
    } else if str_eq(name, "home") {
        Some(KeyCode::Home)
    } else if str_eq(name, "end") {
        Some(KeyCode::End)
    } else if str_eq(name, "pageup") {
        Some(KeyCode::PageUp)
    } else if str_eq(name, "pagedown") {
        Some(KeyCode::PageDown)
    } else if str_eq(name, "insert") {
        Some(KeyCode::Insert)
    } else if str_eq(name, "delete") {
        Some(KeyCode::Delete)
    } else if str_eq(name, "/") {
        Some(KeyCode::Slash)
    } else {
        None
    }
}

/// The colour map that holds nothing.
pub open spec fn no_colours() -> Map<Seq<char>, Seq<char>> {
    Map::empty()
}

/// The control map that holds nothing.
pub open spec fn no_controls() -> Map<Seq<char>, Seq<Seq<char>>> {
    Map::empty()
}

/// The colours of the configuration, by name, held in bevy's hash map
/// (`bevy_utils::HashMap`); held privately, as `NodeSet` is.
#[verifier::external_body]
pub struct ColourMap {
    inner: bevy_utils::HashMap<String, String>,
}

/// What a colour map holds.
pub uninterp spec fn colour_map_contents(m: ColourMap) -> Map<Seq<char>, Seq<char>>;

impl View for ColourMap {
    type V = Map<Seq<char>, Seq<char>>;

    open spec fn view(&self) -> Map<Seq<char>, Seq<char>> {
        colour_map_contents(*self)
    }
}

impl ColourMap {
    /// `bevy_utils::HashMap::default`: a new map holds nothing.
    #[verifier::external_body]
    pub(crate) fn new() -> (fresh: ColourMap)
        ensures
            colour_map_contents(fresh) == no_colours(),
    {
        ColourMap { inner: bevy_utils::HashMap::default() }
    }

    /// `HashMap::insert`: binds `name` to `colour`, replacing any earlier binding.
    #[verifier::external_body]
    pub(crate) fn insert(&mut self, name: String, colour: String)
        ensures
            colour_map_contents(*final(self)) == colour_map_contents(*old(self)).insert(name@, colour@),
    {
        self.inner.insert(name, colour);
    }

    /// `HashMap::get`: the colour bound to `name`, if any.
    #[verifier::external_body]
    pub(crate) fn get(&self, name: &str) -> (colour: Option<String>)
        ensures
            colour matches Some(c) ==> colour_map_contents(*self).contains_key(name@) && c@
                == colour_map_contents(*self)[name@],
            colour is None ==> !colour_map_contents(*self).contains_key(name@),
    {
        self.inner.get(name).cloned()
    }
}

/// The key bindings of the configuration: an action's name to the names of its keys,
/// held in bevy's hash map (`bevy_utils::HashMap`); held privately, as `NodeSet` is.
#[verifier::external_body]
pub struct ControlMap {
    inner: bevy_utils::HashMap<String, Vec<String>>,
}

/// What a control map holds.
pub uninterp spec fn control_map_contents(m: ControlMap) -> Map<Seq<char>, Seq<Seq<char>>>;

impl View for ControlMap {
    type V = Map<Seq<char>, Seq<Seq<char>>>;

    open spec fn view(&self) -> Map<Seq<char>, Seq<Seq<char>>> {
        control_map_contents(*self)
    }
}

impl ControlMap {
    /// `bevy_utils::HashMap::default`: a new map holds nothing.
    #[verifier::external_body]
    pub(crate) fn new() -> (fresh: ControlMap)
        ensures
            control_map_contents(fresh) == no_controls(),
    {
        ControlMap { inner: bevy_utils::HashMap::default() }
    }

    /// `HashMap::insert`: binds `action` to the key names `keys`, replacing any earlier binding.
    #[verifier::external_body]
    pub(crate) fn insert(&mut self, action: String, keys: Vec<String>)
        ensures
            control_map_contents(*final(self)) == control_map_contents(*old(self)).insert(action@, texts(keys@)),
    {
        self.inner.insert(action, keys);
    }

    /// `HashMap::get`: the key names bound to `action`, if any.
    #[verifier::external_body]
    pub(crate) fn get(&self, action: &str) -> (keys: Option<&Vec<String>>)
        ensures
            keys matches Some(k) ==> control_map_contents(*self).contains_key(action@) && texts(k@)
                == control_map_contents(*self)[action@],
            keys is None ==> !control_map_contents(*self).contains_key(action@),
    {
        self.inner.get(action)
    }
}

/// The map that binding each name to its value in turn gives; a later binding of a
/// name replaces an earlier one.
pub open spec fn colours_of(entries: Seq<(String, String)>) -> Map<Seq<char>, Seq<char>>
    decreases entries.len(),
{
    if entries.len() == 0 {
        Map::empty()
    } else {
        colours_of(entries.drop_last()).insert(entries.last().0@, entries.last().1@)
    }
}

/// The map that binding each action to its key names in turn gives; a later binding
/// of an action replaces an earlier one.
pub open spec fn controls_of(entries: Seq<(String, Vec<String>)>) -> Map<Seq<char>, Seq<Seq<char>>>
    decreases entries.len(),
{
    if entries.len() == 0 {
        Map::empty()
    } else {
        controls_of(entries.drop_last()).insert(entries.last().0@, texts(entries.last().1@))
    }
}

impl ColourMap {
    /// The colour map of the given bindings, in order.
    pub fn from_entries(entries: Vec<(String, String)>) -> (map: ColourMap)
        ensures
            map@ == colours_of(entries@),
    {
        let mut map = ColourMap::new();
        let ghost all = entries@;
        assert(all.len() == entries.len());
        let mut rest = entries;
        let mut i: usize = 0;
        while rest.len() > 0
            invariant
                i + rest@.len() == all.len(),
                all.len() <= usize::MAX,
                rest@ == all.subrange(i as int, all.len() as int),
                map@ == colours_of(all.subrange(0, i as int)),
            decreases rest@.len(),
        {
            let (name, colour) = rest.remove(0);
            proof {
                assert(all.subrange(0, i + 1).drop_last() == all.subrange(0, i as int));
                assert(all.subrange(0, i + 1).last() == all[i as int]);
            }
            map.insert(name, colour);
            i = i + 1;
            proof {
                assert(rest@ == all.subrange(i as int, all.len() as int));
            }
        }
        assert(all.subrange(0, all.len() as int) == all);
        map
    }
}

impl ControlMap {
    /// The control map of the given bindings, in order.
    pub fn from_entries(entries: Vec<(String, Vec<String>)>) -> (map: ControlMap)
        ensures
            map@ == controls_of(entries@),
    {
        let mut map = ControlMap::new();
        let ghost all = entries@;
        assert(all.len() == entries.len());
        let mut rest = entries;
        let mut i: usize = 0;
        while rest.len() > 0
            invariant
                i + rest@.len() == all.len(),
                all.len() <= usize::MAX,
                rest@ == all.subrange(i as int, all.len() as int),
                map@ == controls_of(all.subrange(0, i as int)),
            decreases rest@.len(),
        {
            let (action, keys) = rest.remove(0);
            proof {
                assert(all.subrange(0, i + 1).drop_last() == all.subrange(0, i as int));
                assert(all.subrange(0, i + 1).last() == all[i as int]);
            }
            map.insert(action, keys);
            i = i + 1;
            proof {
                assert(rest@ == all.subrange(i as int, all.len() as int));
            }
        }
        assert(all.subrange(0, all.len() as int) == all);
        map
    }
}

/// The user's configuration: colours by name and key bindings by action.
pub struct UserConfig {
    pub colors: ColourMap,
    pub controls: ControlMap,
}

/// Whether some key name bound to `action` names (case aside) a key that is down.
pub open spec fn action_down(controls: Map<Seq<char>, Seq<Seq<char>>>, action: Seq<char>, down: Seq<KeyCode>) -> bool {
    controls.contains_key(action) && exists|j: int|
        #![trigger controls[action][j]]
        0 <= j < controls[action].len() && (match key_named(lowercase_of(controls[action][j])) {
            Some(k) => down.contains(k),
            None => false,
        })
}

fn keys_contain(keys: &Vec<KeyCode>, key: KeyCode) -> (found: bool)
    ensures
        found == keys@.contains(key),
{
    let mut i: usize = 0;
    while i < keys.len()
        invariant
            i <= keys@.len(),
            forall|k: int| 0 <= k < i ==> keys@[k] != key,
        decreases keys@.len() - i,
    {
        if keys[i] == key {
            assert(keys@[i as int] == key);
            return true;
        }
        i = i + 1;
    }
    false
}

impl UserConfig {
    /// The colour bound to `name`, if any.
    pub fn colour(&self, name: &str) -> (colour: Option<String>)
        ensures
            colour matches Some(c) ==> self.colors@.contains_key(name@) && c@ == self.colors@[name@],
            colour is None ==> !self.colors@.contains_key(name@),
    {
        self.colors.get(name)
    }

    /// The key that a key name in the configuration names, read without regard to case.
    pub fn key_from_string(key_str: &str) -> (key: Option<KeyCode>)
        ensures
            key == key_named(lowercase_of(key_str@)),
    {
        let lower = lowercase(key_str);
        key_from_lowercase(lower.as_str())
    }

    fn action_down_exec(&self, action: &str, down: &Vec<KeyCode>) -> (active: bool)
        ensures
            active == action_down(self.controls@, action@, down@),
    {
        match self.controls.get(action) {
            None => false,
            Some(names) => {
                let ghost bound = self.controls@[action@];
                let mut j: usize = 0;
                while j < names.len()
                    invariant
                        j <= names@.len(),
                        self.controls@.contains_key(action@),
                        bound == self.controls@[action@],
                        texts(names@) == bound,
                        forall|m: int| #![trigger bound[m]] 0 <= m < j ==> !(match key_named(lowercase_of(bound[m])) {
                            Some(k) => down@.contains(k),
                            None => false,
                        }),
                    decreases names@.len() - j,
                {
                    assert(bound[j as int] == names@[j as int]@);
                    let hit = match UserConfig::key_from_string(names[j].as_str()) {
                        Some(k) => keys_contain(down, k),
                        None => false,
                    };
                    if hit {
                        return true;
                    }
                    j = j + 1;
                }
                false
            },
        }
    }
}

/// Whether a key bound to `action` is held down (`held` lists the keys down this frame).
pub fn check_action(config: &UserConfig, action: &str, held: &Vec<KeyCode>) -> (active: bool)
    ensures
        active == action_down(config.controls@, action@, held@),
{
    config.action_down_exec(action, held)
}

/// Whether a key bound to `action` went down this frame (`just_pressed` lists them).
pub fn check_action_just_pressed(config: &UserConfig, action: &str, just_pressed: &Vec<KeyCode>) -> (active: bool)
    ensures
        active == action_down(config.controls@, action@, just_pressed@),
{
    config.action_down_exec(action, just_pressed)
}

} // verus!
