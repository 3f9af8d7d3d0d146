//! Reads the configuration dump of a VoIP gateway and turns it into dial-plan
//! records, together with the decisions of the gateway's login protocol.

pub mod args;
pub mod text;
pub mod config;
pub mod dialplans;
pub mod export;
pub mod grammar;
pub mod order;
pub mod scan;
pub mod session;
