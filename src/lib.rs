//! A todo-list library: records with ids and completion state, a mutation
//! protocol (append and toggle), a one-field filter language, a stable sort
//! by a named field, and a word-wrapped fixed-width table layout.
pub mod text;
pub mod record;
pub mod query;
pub mod mutate;
pub mod sort;
pub mod render;
pub mod store;
