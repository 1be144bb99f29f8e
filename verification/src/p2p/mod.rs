//! The peer-to-peer core: the wire codec, the session, the peer database,
//! the crawler and the DNS seed responder.

pub mod address;
pub mod bytes;
pub mod database;
pub mod dns_server;
pub mod frame;
pub mod inv_policy;
pub mod inventory;
pub mod log;
pub mod messageheader;
pub mod multhread;
pub mod p2p_client;
pub mod text;
pub mod utils;
