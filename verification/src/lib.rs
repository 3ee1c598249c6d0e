//! Numbered task lists kept as plain text, one item to a line.
//!
//! A list file holds lines of the form `01. buy milk`: the number of the
//! item, zero-padded to two digits, a period, a space, and the text. The
//! items of a list are always numbered 1, 2, 3, ... in the order of the lines.
//!
//! - [`codec`] reads and writes single lines.
//! - [`store`] holds a list in memory: it reads a list text, adds an item,
//!   deletes items and numbers the rest anew, empties the list, and writes the
//!   list text.
//! - [`laws`] states what holds of these operations whatever the list,
//!   and that a list added to the configuration is found in it.
//! - [`request`] reads the places that a delete request names.
//! - [`cmd`] runs one command on the text of a list file and says what is
//!   to be stored and shown.
//! - [`config`] reads the command line and finds the file of the list to use
//!   in the text of the configuration.
//! - [`options`], [`pattern`] and [`platform`] hold the calls into other crates
//!   and into the parts of the standard library whose results are taken on trust.
//! - [`text`] cuts texts into lines and pieces.
//!
//! The library reads and writes no file: the caller reads the list file
//! and the configuration, hands their texts in, and stores what comes back.

pub mod cmd;
pub mod codec;
pub mod config;
pub mod error;
pub mod laws;
pub mod options;
pub mod pattern;
pub mod platform;
pub mod request;
pub mod store;
pub mod text;
