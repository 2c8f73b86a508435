//! An ordered task list kept in a plain text file: loading and saving the
//! file format, the list operations that keep each task's `order` equal to its
//! position, sorting by due date, and the command dispatcher around them.

pub mod command;
pub mod date;
pub mod store;
pub mod text;
