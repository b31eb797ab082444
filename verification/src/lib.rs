//! Hyprland-style tiling for terminal interfaces: a tree of panes, its
//! layout bookkeeping, mouse interaction decisions and a small tab manager,
//! each with its contract.

pub mod input;
pub mod geometry;
pub mod tree;
pub mod layout;
pub mod state;
pub mod split_hit;
pub mod workspace;
pub mod mouse;
pub mod terminal;
