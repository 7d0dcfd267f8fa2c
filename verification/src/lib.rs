//! A selectable list of bookmarks kept in step with a newline-delimited text
//! file and a clipboard.
//!
//! The library holds the rules: how the selection moves, what an edit does to
//! the list and to the text of the backing file, and when a repeated key
//! press fires. Reading and writing the file, the clipboard and the terminal
//! are left to the caller, which hands in plain strings and carries out what
//! comes back.

pub mod error;
pub mod file_editor;
pub mod keys;
pub mod selectable_list;
pub mod store;
