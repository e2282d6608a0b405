//! What both ways of proxying share: how they are set up, and when they stop.
pub mod fallback;
pub mod kernel;

use vstd::prelude::*;
use crate::addr::SockAddr;
use crate::config::Args;
use crate::outside::random_i64;

verus! {

/// Why the proxy cannot start.
#[derive(Debug, Clone, Copy, PartialEq, Eq, Structural)]
pub enum StartError {
    /// The name of the server stands for no address.
    NoServerAddress,
}

impl StartError {
    /// The error in words.
    pub open spec fn text(self) -> Seq<char> {
        match self {
            StartError::NoServerAddress => "Failed to resolve server address"@,
        }
    }

    /// The error in words.
    pub fn message(&self) -> (m: &'static str)
        ensures
            m@ == self.text(),
            m@ == "Failed to resolve server address"@,
    {
        match self {
            StartError::NoServerAddress => "Failed to resolve server address",
        }
    }
}

/// What a running proxy goes by.
#[derive(Debug, Clone, Copy, PartialEq, Eq, Structural)]
pub struct ProxyConfig {
    /// The server.
    pub remote: SockAddr,
    /// Nanoseconds without traffic after which a client is forgotten.
    pub timeout: u128,
    /// The server id that is handed on with
    /// [`ReadAction::Rewrite`](fallback::ReadAction::Rewrite).
    pub server_id: i64,
    /// Whether a pong is to be made up without ports; handed on with
    /// [`ReadAction::Rewrite`](fallback::ReadAction::Rewrite).
    pub remove_ports: bool,
}

/// The configuration for `args`, where the name of the server stands for the
/// addresses `resolved`: the first of them is the server.
pub open spec fn config_for(args: Args, resolved: Seq<SockAddr>, server_id: i64) -> Result<
    ProxyConfig,
    StartError,
> {
    if resolved.len() == 0 {
        Err(StartError::NoServerAddress)
    } else {
        Ok(
            ProxyConfig {
                remote: resolved[0],
                timeout: (args.timeout * 1_000_000_000) as u128,
                server_id,
                remove_ports: args.remove_ports,
            },
        )
    }
}

/// The configuration with the id `server_id`.
pub fn configure(args: &Args, resolved: &Vec<SockAddr>, server_id: i64) -> (config: Result<
    ProxyConfig,
    StartError,
>)
    ensures
        config == config_for(*args, resolved@, server_id),
        resolved@.len() == 0 ==> config == Err::<ProxyConfig, StartError>(
            StartError::NoServerAddress,
        ),
        resolved@.len() > 0 ==> {
            &&& config matches Ok(c)
            &&& c.remote == resolved@[0]
            &&& c.timeout == args.timeout * 1_000_000_000
            &&& c.server_id == server_id
            &&& c.remove_ports == args.remove_ports
        },
{
    if resolved.len() == 0 {
        return Err(StartError::NoServerAddress);
    }
    Ok(
        ProxyConfig {
            remote: resolved[0],
            timeout: args.timeout as u128 * 1_000_000_000,
            server_id,
            remove_ports: args.remove_ports,
        },
    )
}

/// The configuration with an id drawn at random.
pub fn prepare(args: &Args, resolved: &Vec<SockAddr>) -> (config: Result<ProxyConfig, StartError>)
    ensures
        exists|server_id: i64| config == config_for(*args, resolved@, server_id),
        config is Ok <==> resolved@.len() > 0,
        resolved@.len() == 0 ==> config == Err::<ProxyConfig, StartError>(
            StartError::NoServerAddress,
        ),
        resolved@.len() > 0 ==> {
            &&& config matches Ok(c)
            &&& c.remote == resolved@[0]
            &&& c.timeout == args.timeout * 1_000_000_000
            &&& c.remove_ports == args.remove_ports
        },
{
    let server_id: i64 = random_i64();
    configure(args, resolved, server_id)
}

/// Whether the kernel-based proxy is used, where `supported` says whether the
/// operating system supports it: an argument can disable it even then. Where it
/// is not used, the fallback is.
pub fn uses_kernel(args: &Args, supported: bool) -> (b: bool)
    ensures
        b == (supported && !args.disable_kernel_proxy),
{
    supported && !args.disable_kernel_proxy
}

/// Where the proxy listens for clients.
pub fn listen_addresses() -> (addresses: Vec<&'static str>)
    ensures
        addresses@.len() == 2,
        addresses@[0]@ == "[::]:19132"@,
        addresses@[1]@ == "[::]:19133"@,
{
    vec!["[::]:19132", "[::]:19133"]
}

/// What happens while the proxy runs, outside of its read loops.
#[derive(Debug, Clone, Copy, PartialEq, Eq, Structural)]
pub enum ProxyEvent {
    /// It is time to look for silent clients.
    CleanupDue,
    /// A read loop has ended.
    ReadLoopEnded,
    /// The user asks the program to end.
    Interrupted,
}

/// What the proxy does then.
#[derive(Debug, Clone, Copy, PartialEq, Eq, Structural)]
pub enum ProxyAction {
    /// Drop the silent clients.
    Cleanup,
    /// End.
    Stop,
}

/// The proxy runs until a read loop ends or the user asks it to end; until then
/// it drops silent clients whenever that is due.
pub fn supervise(event: ProxyEvent) -> (action: ProxyAction)
    ensures
        action == ProxyAction::Cleanup <==> event == ProxyEvent::CleanupDue,
        action == ProxyAction::Stop <==> event == ProxyEvent::ReadLoopEnded || event
            == ProxyEvent::Interrupted,
{
    match event {
        ProxyEvent::CleanupDue => ProxyAction::Cleanup,
        ProxyEvent::ReadLoopEnded => ProxyAction::Stop,
        ProxyEvent::Interrupted => ProxyAction::Stop,
    }
}

/// What a socket hands over.
#[derive(Debug, Clone, Copy)]
pub enum Received<'a> {
    /// A packet, and where it comes from.
    Packet { data: &'a [u8], from: SockAddr },
    /// The socket has failed.
    Failed,
}

/// The arguments are kept to: the server is the first address that its name
/// stands for, the timeout is that of the arguments, in nanoseconds, and the
/// other values are passed through. Without an address there is no configuration.
pub proof fn law_arguments_are_kept(args: Args, resolved: Seq<SockAddr>, server_id: i64)
    ensures
        config_for(args, resolved, server_id) is Err <==> resolved.len() == 0,
        config_for(args, resolved, server_id) matches Ok(c) ==> {
            &&& c.remote == resolved[0]
            &&& c.timeout == args.timeout * 1_000_000_000
            &&& c.server_id == server_id
            &&& c.remove_ports == args.remove_ports
        },
{
}

/// A configured timeout is the given number of seconds: what was last used at
/// `last_used` is idle at `now` exactly when more than that has passed.
pub proof fn law_timeout_in_seconds(
    args: Args,
    resolved: Seq<SockAddr>,
    server_id: i64,
    last_used: u128,
    now: u128,
)
    requires
        resolved.len() > 0,
    ensures
        config_for(args, resolved, server_id) matches Ok(c) && (crate::table::idle(
            last_used,
            c.timeout,
            now,
        ) <==> now - last_used > args.timeout * 1_000_000_000),
{
}

/// The addresses behind the first one are not looked at.
pub proof fn law_first_address_counts(
    args: Args,
    first: SockAddr,
    rest: Seq<SockAddr>,
    other: Seq<SockAddr>,
    server_id: i64,
)
    ensures
        config_for(args, seq![first] + rest, server_id) == config_for(
            args,
            seq![first] + other,
            server_id,
        ),
        config_for(args, seq![first] + rest, server_id) matches Ok(c) && c.remote == first,
{
    assert((seq![first] + rest)[0] == first);
    assert((seq![first] + other)[0] == first);
}

} // verus!
