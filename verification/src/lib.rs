//! A peer-to-peer relay network: message model, peer tables, relay and hub
//! decisions, signatures and the text forms that the nodes store and print.

pub mod text;
pub mod addr;
pub mod addr_parse;
pub mod types;
pub mod crypto;
pub mod counter;
pub mod channel;
pub mod ack;
pub mod peers;
pub mod node;
pub mod client;
pub mod records;
pub mod display;
pub mod keys;
