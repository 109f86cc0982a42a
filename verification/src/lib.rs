//! Label-driven cursor jumping for tmux panes: match scanning, label
//! generation, grid-cell geometry, overlay rendering and the jump flow.

pub mod text;
pub mod tmux;
pub mod unicode;
pub mod cells;
pub mod cli;
pub mod config;
pub mod flow;
pub mod jump;
pub mod labels;
pub mod overlay;
