//! Verified core of weztui, a terminal interface for WezTerm: the window,
//! tab and pane tree read from `wezterm cli list`, the tree view's items and
//! rows, fuzzy-search entries, session capture, split-layout recovery and the
//! restore plan, the session store's names and listing, the layout preview,
//! the keybinding block in WezTerm's config file, the escape sequences sent to
//! WezTerm, and the interactive controller that turns key presses into work
//! for the terminal side and takes in what came of it.

pub mod text;
pub mod model;
pub mod session;
pub mod store;
pub mod restore;
pub mod search;
pub mod layout;
pub mod tree;
pub mod preview;
pub mod outline;
pub mod settings;
pub mod ipc;
pub mod install;
pub mod app;
pub mod screen;
pub mod markers;
