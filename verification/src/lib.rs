//! Sticky notes: note records, the relation graph that links similar notes,
//! and the document store that keeps them.

pub mod clock;
pub mod durable;
pub mod graph;
pub mod ident;
pub mod lists;
pub mod note;
pub mod presentation;
pub mod similarity;
pub mod storage;
pub mod text;

pub use graph::{KnowledgeGraph, NoteRelation, RelationType};
pub use note::AppNote;
pub use similarity::Similarity;
pub use storage::{NoteStorage, StorageStats};
