//! A Bitcoin peer-to-peer client core: the wire codec, the session state
//! machine, the peer database, the crawler's decisions and the DNS seed
//! responder, each with a machine-checked contract.

pub mod cli;
pub mod interactive;
pub mod p2p;
