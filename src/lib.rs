//! A todo.txt task list: the token grammar of a task line, its exact
//! serializer, and the commands that change a list.
pub mod application;
pub mod args;
pub mod config;
pub mod data;
pub mod date;
pub mod element;
pub mod entry;
pub mod error;
pub mod model;
pub mod roundtrip;
pub mod status;
pub mod text;
