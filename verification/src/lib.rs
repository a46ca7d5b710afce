//! Verified core of a multi-protocol terminal: protocol state machines,
//! configuration readers, reconnect policy and the decisions that drive the
//! SSH, serial, SFTP, telnet and tunnel sessions.

pub mod telnet;
pub mod text;
pub mod ssh_config;
pub mod records;
pub mod ssh;
pub mod tunnel;
pub mod sftp;
pub mod serial;
pub mod socks5;
pub mod monitor;
pub mod batch;
pub mod config;
pub mod connections;
pub mod sync;
pub mod pty;
pub mod daemon;
