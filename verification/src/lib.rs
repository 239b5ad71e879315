pub mod docs;
pub mod entry_laws;
pub mod error;
pub mod laws;
pub mod layout_laws;
pub mod output;
pub mod signature;
pub mod text;
pub mod type_file;
pub mod typed;
