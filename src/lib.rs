//! Attribution of live network traffic to the processes that own its sockets.
//!
//! The verified core: interface classification, frame parsing, port-to-process
//! correlation, per-process reduction, the frame buffer, the collection state
//! machine and the hand-off of results to a foreign caller.

pub mod config;
pub mod analyze;
pub mod sys_info;
pub mod statistics;
pub mod buffer;
pub mod controller;
pub mod handoff;
