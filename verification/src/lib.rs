//! The core of a proof-of-stake network of services: blocks and their chains,
//! epochs and the selection of leaders, the registries of transactions and of
//! nodes, signed envelopes and gossip, and the framing of the data channel.
//!
//! Every function states what it computes; the public proof functions state what
//! holds across functions.
pub mod action_router;
pub mod auth;
pub mod blocks;
pub mod bytes;
pub mod config;
pub mod conns;
pub mod crypto;
pub mod data;
pub mod encoding;
pub mod environment;
pub mod epoch;
pub mod errors;
pub mod gossiper;
pub mod keyed_store;
pub mod logging;
pub mod messages;
pub mod node;
pub mod primitives;
pub mod registry;
pub mod rns;
pub mod sorted_map;
pub mod text;
pub mod tokens;
pub mod transactions;
pub mod user;
