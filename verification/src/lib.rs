//! What a backup daemon for desktop Linux decides.
//!
//! Nothing here reads a disk, a bus or a clock. What was read comes in as plain
//! values, and what is to be done goes out as plain values. A long operation is a
//! state machine that hands out orders and is told how they went.

pub mod background;
pub mod calendar;
pub mod daemon;
pub mod demo;
pub mod engine;
pub mod jobs;
pub mod notify;
pub mod offline;
pub mod paths;
pub mod pipeline;
pub mod preflight;
pub mod reachability;
pub mod restore;
pub mod schedule;
pub mod service;
pub mod snapshot;
pub mod text;
pub mod time;
