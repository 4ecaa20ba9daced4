use vstd::prelude::*;

verus! {

/// In the game you can reach level 99 + 24 skillpoints from quests.
pub const MAXIMUM_ACTIVATEABLE_NODES: u8 = 123;

/// The length a query MUST be in the searchbox before we allow the searching to begin.
pub const SEARCH_THRESHOLD: usize = 5;

/// Default path to which a character is saved.
pub const DEFAULT_SAVE_PATH: &'static str = "data/character.toml";

} // verus!
