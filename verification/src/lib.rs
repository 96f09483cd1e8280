//! A SYN port scanner: argument parsing, probe construction, reply
//! classification and the text shown to the user.
//!
//! The raw sockets, threads and terminal output live outside this library;
//! everything that decides what is sent and how replies are read is here.

pub mod net;
pub mod text;
pub mod scanner;
pub mod cli;
