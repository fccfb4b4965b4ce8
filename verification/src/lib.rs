//! Branching-narrative engine: a binary decision tree of authored nodes,
//! load-time structural validation, pure traversal transitions, ending
//! detection, and versioned persistence of traversal state.
pub mod parse;
pub mod save;
pub mod scenario;
pub mod session;
pub mod strutil;
