//! The SSH side of a terminal application.
//!
//! The library decides and computes; it starts no process and touches no file. It says which program
//! is to be started and with what, reads what the program printed, and keeps track of which node of
//! the SSH manager is connected to which host.

#![allow(unused_imports)]

pub mod autoupdate;
pub mod connection_model;
pub mod ids;
pub mod process;
pub mod settings;
pub mod sftp_browser_model;
pub mod sftp_listing;
pub mod ssh;
mod table;
pub mod text;
