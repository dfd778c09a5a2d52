//! An in-memory task list: an ordered store of text tasks with done flags,
//! plus the pure command-classification and position-parsing logic of the
//! interactive menu that drives it.

pub mod command;
pub mod store;
