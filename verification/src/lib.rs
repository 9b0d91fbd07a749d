//! A line-oriented Markdown editing core: block model, line classification,
//! cursor arithmetic across UTF-8/UTF-16, inline rendering and the editor's
//! document-level state (history, settings, chat).

pub mod text;
pub mod lines;
pub mod blocks;
pub mod cursor;
pub mod render;
pub mod editing;
pub mod document;
pub mod settings;
pub mod chat;
