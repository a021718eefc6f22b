//! A decoy TCP listener: the rules by which it is configured, counts the
//! connections that reach each port, and stops as a whole on the first failure.
//!
//! The crate holds the decisions only. Sockets, the HTTP endpoint and the task
//! runtime belong to the program that drives these state machines.

pub mod config;
pub mod listener;
pub mod port_text;
pub mod recorder;
pub mod registry;
pub mod supervisor;
pub mod task;
