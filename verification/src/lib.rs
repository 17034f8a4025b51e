//! The verified core of diffski, a live diff viewer for git working trees.

pub mod app;
pub mod build_laws;
pub mod building;
pub mod change_laws;
pub mod clipboard;
pub mod commits;
pub mod config;
pub mod config_laws;
pub mod delta;
pub mod diff_laws;
pub mod diff_pane;
pub mod drawing_laws;
pub mod filter;
pub mod filter_laws;
pub mod footer;
pub mod frame;
pub mod geometry;
pub mod git;
pub mod git_laws;
pub mod history;
pub mod input;
pub mod key_laws;
pub mod label_laws;
pub mod labels;
pub mod list_laws;
pub mod list_pane;
pub mod listing;
pub mod mouse;
pub mod mouse_laws;
pub mod pacing;
pub mod picture;
pub mod rich;
pub mod rich_laws;
pub mod scroll_laws;
pub mod search;
pub mod search_laws;
pub mod sort;
pub mod sort_laws;
pub mod state;
pub mod table;
pub mod text_laws;
pub mod timing_laws;
pub mod txt;
pub mod update;
pub mod view_laws;
pub mod watch;
