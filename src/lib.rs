//! Parsing of Linux audit log lines into typed records, and correlation of
//! `SYSCALL` records with the `SOCKADDR` records of the same event.
pub mod correlate;
pub mod lines;
pub mod model;
pub mod parse;
pub mod table;
pub mod text;
