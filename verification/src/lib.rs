//! Load generator for the Mythical test networks: the decisions of the tool,
//! verified.
//!
//! The crate plans what the loader submits and in which order. It builds the
//! extrinsics, signs marketplace orders, runs the set-up and the load as state
//! machines, and matches the events of finalized blocks against the extrinsics
//! that are being waited for. Talking to a node, reading files and the clock
//! are left to the caller.
pub mod amounts;
pub mod batch;
pub mod calls;
pub mod channel;
pub mod config;
pub mod effects;
pub mod hexadecimal;
pub mod keys;
pub mod load;
pub mod monitor;
pub mod scale;
pub mod setup;
pub mod substrate;
pub mod trade;
