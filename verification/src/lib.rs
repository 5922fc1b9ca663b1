pub mod arith;
pub mod error;
pub mod lanes;
pub mod marker;
pub mod merge;
pub mod notification;
pub mod objects;
pub mod persist;
pub mod placement;
pub mod preview;
pub mod render;
pub mod snippets;
pub mod store;
pub mod tags;
