//! Host and guest sides of a plugin runtime for a fleet-management
//! controller: the driver registry, the bookkeeping of a loaded plugin
//! instance, and the nodes that hand out addresses and run servers.

pub mod allocation;
pub mod cli;
pub mod contract;
pub mod driver;
pub mod error;
pub mod node;
pub mod plugin;
pub mod runtime;
pub mod server;
