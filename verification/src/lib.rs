//! A viewer core for large text files: a memory-mapped byte source, an
//! incrementally built line index shared between a builder task and
//! concurrent readers, and character-addressed retrieval of line windows.

pub mod file;
pub mod index;
pub mod lines;
pub mod ui;
