//! The core of a launcher for the commands that a Procfile names.
//!
//! - [`procfile`] reads a Procfile text into named commands, looks them up,
//!   takes them out, and writes them back as text.
//! - [`process`] expands a command template against an environment and says
//!   how the result is to be launched through the shell.
//! - [`env`] holds the environments that commands are expanded against.
//! - [`text`] holds the operations on character sequences that the others
//!   are stated with.
//! - [`listing`] and [`roundtrip`] hold what is proved of Procfiles: how
//!   entries are kept in order, and that writing and reading agree.
//!
//! Nothing here touches a file or starts a process: the functions take and
//! return plain values, and Verus checks each against its contract. Two
//! facts about `String` are taken on trust and marked so: what `push` and
//! `from_utf8` do.

pub mod env;
pub mod listing;
pub mod process;
pub mod procfile;
pub mod roundtrip;
pub mod text;
