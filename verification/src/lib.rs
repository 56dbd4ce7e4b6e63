//! A bulk file renamer: the rules that turn file names into new names,
//! the folder listing model and the undo / redo history of applied renames.

pub mod text;
pub mod rename;
pub mod order;
pub mod folder;
pub mod edit;
pub mod gui;
pub mod pipeline;
pub mod frame;
pub mod browse;
pub mod hash;
