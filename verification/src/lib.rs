//! Mode S / ADS-B decoding, signal-chain plumbing and receiver bookkeeping.
use vstd::prelude::*;

pub mod bits;
pub mod crc;
pub mod text;
pub mod units;
pub mod cpr;
pub mod frame;
pub mod decode;
pub mod hex;
pub mod signal;
pub mod types;
pub mod validate;
pub mod slice;
pub mod detect;
pub mod scan;
pub mod magnitude;
pub mod pipeline;
pub mod registry;
pub mod source;
pub mod ring;
pub mod fault;
pub mod replay;
pub mod track;
pub mod snapshot;
pub mod api;
pub mod bench;
pub mod doctor;
pub mod config;
pub mod health;
pub mod store;
pub mod station;
pub mod synth;
pub mod web;
pub mod cli;

verus! {

} // verus!
