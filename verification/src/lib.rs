//! Filters over text: which lines a viewer shows, how filter sets are loaded,
//! switched and saved, and the text formats around them.

pub mod clipboard;
pub mod colour;
pub mod config;
pub mod counting;
pub mod document;
pub mod document_laws;
pub mod document_operations;
pub mod document_text;
pub mod editor;
pub mod editor_laws;
pub mod editor_operations;
pub mod emit;
pub mod filter;
pub mod filtersets;
pub mod fixtures;
pub mod headless;
pub mod headless_laws;
pub mod help;
pub mod key_laws;
pub mod key_operations;
pub mod keymap;
pub mod output_operations;
pub mod overlay_laws;
pub mod overlay_operations;
pub mod path;
pub mod pattern;
pub mod row_laws;
pub mod search_laws;
pub mod set_file_laws;
pub mod set_laws;
pub mod set_operations;
pub mod settings_laws;
pub mod syntax;
pub mod table_laws;
pub mod text;
pub mod text_laws;
