//! Core of a language server: document edits, an incrementally maintained
//! word index, reference search, the analysis cache and the server lifecycle.

pub mod analysis;
pub mod capabilities;
pub mod chars;
pub mod client;
pub mod document;
pub mod event_loop;
pub mod find_refs;
pub mod index_laws;
pub mod locations;
pub mod opened_files;
pub mod paths;
pub mod position;
pub mod position_laws;
pub mod request_queue;
pub mod state;
pub mod state_laws;
pub mod word_index;
pub mod words;
pub mod workspace;
