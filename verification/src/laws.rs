//! What calls of the library come to.
//!
//! Each law takes the arguments and the results of calls and says what holds of them, in plain
//! terms: with the very texts, numbers and bytes.

pub mod basics;
pub mod connections;
pub mod dates;
pub mod files;
pub mod forms;
pub mod frames;
pub mod requests;
pub mod sending;
pub mod serving;
pub mod sockets;
pub mod texts;
pub mod uris;
