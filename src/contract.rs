use vstd::prelude::*;

verus! {

/// A network address that a node hands to one of its servers.
#[derive(Clone, Debug, PartialEq, Eq)]
pub struct Address {
    pub host: String,
    pub port: u16,
}

/// Capability limits of a node, as they cross the plugin boundary.
#[derive(Clone, Debug, PartialEq, Eq)]
pub struct Capabilities {
    pub memory: u32,
    pub max_servers: u32,
    pub child: Option<String>,
}

/// What a server asks of a node before it is started.
#[derive(Clone, Debug, PartialEq, Eq)]
pub struct ServerProposal {
    pub name: String,
    pub memory: u32,
    /// How many addresses the server needs.
    pub ports: u32,
}

/// A server as the controller sees it: its name and the addresses bound to it.
#[derive(Clone, Debug, PartialEq, Eq)]
pub struct Server {
    pub name: String,
    pub allocation: Vec<Address>,
}

/// A cancellation guard that the controller hands to a stop request; it is
/// released once the stop has been carried out.
#[derive(Clone, Debug, PartialEq, Eq)]
pub struct Guard {
    pub id: u64,
}

/// The handle through which a started server's output can be watched.
#[derive(Clone, Debug, PartialEq, Eq)]
pub enum ScreenType {
    /// The backend offers no output for this server.
    Unsupported,
    /// A live output stream of the named server.
    Supported(String),
}


/// The feature flags a plugin reports, as a bit set.
#[derive(Clone, Debug, PartialEq, Eq)]
pub struct Features {
    pub bits: u32,
}

/// The flag of a plugin that manages nodes.
pub const FEATURE_NODE: u32 = 1;

/// What a plugin reports about itself when it is initialised.
#[derive(Clone, Debug, PartialEq, Eq)]
pub struct Information {
    pub authors: Vec<String>,
    pub version: String,
    pub features: Features,
    pub ready: bool,
}

} // verus!
