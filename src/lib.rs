//! An in-memory inverted index over text documents, with the request routing,
//! corpus watching and job accounting of a small search server around it.
pub mod text;
pub mod inverted_index;
pub mod decimal;
pub mod request;
pub mod watcher;
pub mod pool;

pub use inverted_index::{DocReference, Document, InvertedIndex};
pub use pool::JobCounter;
pub use request::{process_request, HttpStatus, Response};
pub use watcher::{ChangeKind, FileChange, FileStamp, WatchState};
