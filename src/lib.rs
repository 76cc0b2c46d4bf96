//! In-memory index of a directory of text notes, some of which carry a
//! bibliographic record, with a citation parser, change handling and ranked
//! search.

pub mod bibtex;
pub mod bibtex_laws;
pub mod text;
pub mod paths;
pub mod tokenizer;
pub mod notes;
pub mod index;
pub mod sync;
pub mod api;
