//! A small task-list library: an ordered store of tasks (id, title,
//! completion flag), the four operations a task manager needs (add, list,
//! complete, delete), and a textual codec that persists the store as a
//! JSON array of objects.  Every function is verified: the operations
//! against a sequence model of the store, the codec against a round-trip
//! law (decoding a serialized store yields the same tasks).

pub mod task;
pub mod store;
pub mod text;
pub mod codec;
pub mod writer;
pub mod reader;
pub mod render;
pub mod handler;
