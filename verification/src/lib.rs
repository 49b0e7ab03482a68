//! A JSON document viewer core: parse and pretty-print a document, flatten it
//! into an ordered tree of nodes with expand/collapse state, resolve which
//! nodes are visible, and navigate over the visible ones.  Terminal painting,
//! clipboard access and file watching live outside this crate; this library
//! holds the data model and every rule that decides what those collaborators
//! are handed.

pub mod codec;
pub mod state;
pub mod tree;
pub mod value;
pub mod visibility;
