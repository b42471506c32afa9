//! Terminal session sharing: the relay protocol, the relay's session table, the
//! guest's scrollback, the registry of running shares and the command line.
pub mod channel;
pub mod cli;
pub mod client;
pub mod code;
pub mod connection;
pub mod guest;
pub mod network;
pub mod protocol;
pub mod registry;
pub mod relay;
pub mod session;
pub mod text;
