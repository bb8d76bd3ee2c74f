//! A DHCPv4 server with static, MAC-based assignments: the protocol, its
//! configuration, the client table and the state that the endpoints report.
#![allow(unused_imports)]

pub mod text;
pub mod net;
pub mod config;
pub mod clients;
pub mod options;
pub mod dhcp;
pub mod reply;
pub mod laws;
pub mod dump;
pub mod series;
pub mod runtime;
pub mod server;
pub mod sync;
pub mod messages;
pub mod answers;
pub mod datagrams;
pub mod stages;
pub mod notations;
pub mod settings;
pub mod rows;
pub mod counts;
pub mod exposition;
pub mod polling;
pub mod words;
pub mod cli;
