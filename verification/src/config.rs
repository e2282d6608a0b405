//! What the proxy is told when it is started.
use vstd::prelude::*;

verus! {

/// The largest packet that is received.
pub const MAX_MTU: usize = 1472;

/// The timeout, in seconds, unless another one is given.
pub const DEFAULT_TIMEOUT: u64 = 60;

/// The arguments of the program.
#[derive(Debug)]
pub struct Args {
    /// Host and port of the server.
    pub server: String,
    /// Seconds without traffic after which a client is forgotten.
    pub timeout: u64,
    /// Whether a pong made up for a server that cannot be reached is to name no
    /// ports.
    pub remove_ports: bool,
    /// Whether the kernel-based proxy is not to be used even if supported.
    pub disable_kernel_proxy: bool,
}

} // verus!
