//! Core of a client driver for the Bolt graph-database protocol, version 1.
//!
//! The crate is layered bottom-up:
//!
//! - `bytes`: big-endian integers as byte sequences;
//! - `value`, `pack`, `unpack`, `codec`: the PackStream values, their wire
//!   form, and what holds of writing and reading together;
//! - `chunk`: messages as chunks on the wire;
//! - `sig`, `bolt`, `pipeline`, `state`: the pipelined Bolt session, what
//!   holds of a pipeline of requests, and the states of a connection;
//! - `cypher`, `neo4j`, `graph`: statements, transactions and bookmarks,
//!   results, and the nodes and relationships inside them.
//!
//! Every layer works on byte buffers in memory. Moving those bytes over a
//! socket is left to the caller: it sends what the session hands out and
//! feeds what arrives.

pub mod bytes;
pub mod value;
pub mod pack;
pub mod unpack;
pub mod codec;
pub mod chunk;
pub mod sig;
pub mod bolt;
pub mod pipeline;
pub mod state;
pub mod cypher;
pub mod neo4j;
pub mod graph;
