//! A UDP proxy that lets LAN clients of a Bedrock server find it: the packet
//! format of its discovery messages, the table of clients it serves, and the
//! decisions of its read and relay loops.
pub mod addr;
pub mod clientmap;
pub mod config;
pub mod outside;
pub mod proto;
pub mod proxy;
pub mod table;
pub mod text;
