//! A minimal directory lister: it orders the entries of a directory by name,
//! hides dotfiles unless asked, styles directories apart from the rest and
//! renders the result as one line.
pub mod order;
pub mod entry;
pub mod listing;
pub mod laws;
pub mod render;
pub mod args;
