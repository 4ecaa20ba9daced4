//! Decision logic of the passive-tree visualiser: which nodes and edges light up,
//! how paths are repaired and previewed, how characters and configuration are read,
//! the small state machines around search, hotkeys and mouse input, and the outline
//! of the keys of the tree's data file.
pub mod characters;
pub mod colours;
pub mod components;
pub mod config;
pub mod consts;
pub mod edges;
pub mod events;
pub mod hotkeys;
pub mod mouse;
pub mod node_set;
pub mod nodes;
pub mod outline;
pub mod paths;
pub mod remote;
pub mod resources;
pub mod search;
pub mod text;
pub mod tree_vis;
pub mod ui;
