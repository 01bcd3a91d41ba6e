//! A hierarchical task list: a tree of named tasks that can be done or not,
//! the rule by which a task follows its children, the listing of the tree to
//! some depth, its file format, and the lines and menus that show it.
//!
//! The tree stands in `topology`, `tree_view` and `tree`, the task list in
//! `completion`, `store` and `codec`, the lines in `formatter` and `listing`.
//! The rest serves the screens: keys, colours, menus and their texts.

pub mod buffer;
pub mod codec;
pub mod colors;
pub mod completion;
pub mod control;
pub mod controls;
pub mod display;
pub mod entry;
pub mod formatter;
pub mod key;
pub mod layout;
pub mod listing;
pub mod menu;
pub mod store;
pub mod text;
pub mod topology;
pub mod tree;
pub mod tree_view;
