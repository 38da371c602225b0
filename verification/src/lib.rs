//! Verified core of the Nexterm terminal client.
use vstd::prelude::*;

pub mod text;
pub mod command_blocks;
pub mod named_blocks;
pub mod accessibility;
pub mod animations;
pub mod icons;
pub mod glyph_atlas;
pub mod font;
pub mod key_map;
pub mod ranking;
pub mod host_manager;
pub mod macro_picker;
pub mod drop_target;
pub mod ipc;
pub mod colors;
pub mod picker_nodes;
pub mod notification;
pub mod tree_state;
pub mod pane_tree;
pub mod alerts;
pub mod tree_nodes;

verus! {

} // verus!
