//! A small task list: records with an id, a text, a creation time and a done flag,
//! the commands that change them, and the line-oriented text format they are kept in.

pub mod codec;
pub mod listing;
pub mod record;
pub mod store;
pub mod text;
