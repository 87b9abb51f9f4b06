//! The judgement of a home-network watcher: which layer of the network is at
//! fault, when to raise an alert, when to stay silent, and what to show.
//!
//! Everything here is free of sockets, files and clocks. The program around it
//! hands in probe results, clock readings and database rows, and carries out
//! what comes back.

pub mod binary64;
pub mod cli;
pub mod config;
pub mod engine;
pub mod events;
pub mod hosts;
pub mod ladder;
pub mod laws;
pub mod laws_events;
pub mod laws_inputs;
pub mod laws_numbers;
pub mod laws_shown;
pub mod laws_targets;
pub mod layer;
pub mod monitor;
pub mod notify;
pub mod probes;
pub mod restart;
pub mod runs;
pub mod snapshot;
pub mod status;
pub mod store;
pub mod target;
pub mod text;
pub mod web;
