//! Text and layout logic behind a set of fzf pickers over tmux windows and panes:
//! ordering the window list, marking alarms, aligning columns, turning captured
//! panes into searchable rows, and placing copy-mode on a chosen line.

pub mod text;
pub mod trusted;
pub mod order;
pub mod sorting;
pub mod rows;
pub mod content;
pub mod position;
pub mod capture;
pub mod env;
pub mod tmux;
pub mod picker;
