//! The network as the library sees it: the addresses to connect to and the
//! failures to report.

use vstd::prelude::*;
use vstd::string::StringExecFns;
use crate::error::{Error, ErrorView};

verus! {

/// The kind of a failure of the network.
#[derive(Debug, Clone, Copy, PartialEq, Eq)]
pub enum NetworkError {
    /// The failure is of no known kind.
    Unknown,
    /// Access was denied.
    AccessDenied,
    /// The operation is not supported.
    NotSupported,
    /// An argument was invalid.
    InvalidArgument,
    /// There was not enough memory.
    OutOfMemory,
    /// The operation timed out.
    Timeout,
    /// The operation cannot run beside another of its kind.
    ConcurrencyConflict,
    /// An operation was finished that had not been started.
    NotInProgress,
    /// The operation would have blocked.
    WouldBlock,
    /// The socket is in no state for the operation.
    InvalidState,
    /// No more sockets can be made.
    NewSocketLimit,
    /// The address cannot be bound to.
    AddressNotBindable,
    /// The address is in use.
    AddressInUse,
    /// The remote address cannot be reached.
    RemoteUnreachable,
    /// The connection was refused.
    ConnectionRefused,
    /// The connection was reset.
    ConnectionReset,
    /// The connection was aborted.
    ConnectionAborted,
    /// The datagram is too large.
    DatagramTooLarge,
    /// The name cannot be resolved.
    NameUnresolvable,
    /// The resolver failed for now.
    TemporaryResolverFailure,
    /// The resolver failed for good.
    PermanentResolverFailure,
}

impl NetworkError {
    /// The name of the kind.
    pub open spec fn name(self) -> Seq<char> {
        match self {
            NetworkError::Unknown => "Unknown"@,
            NetworkError::AccessDenied => "AccessDenied"@,
            NetworkError::NotSupported => "NotSupported"@,
            NetworkError::InvalidArgument => "InvalidArgument"@,
            NetworkError::OutOfMemory => "OutOfMemory"@,
            NetworkError::Timeout => "Timeout"@,
            NetworkError::ConcurrencyConflict => "ConcurrencyConflict"@,
            NetworkError::NotInProgress => "NotInProgress"@,
            NetworkError::WouldBlock => "WouldBlock"@,
            NetworkError::InvalidState => "InvalidState"@,
            NetworkError::NewSocketLimit => "NewSocketLimit"@,
            NetworkError::AddressNotBindable => "AddressNotBindable"@,
            NetworkError::AddressInUse => "AddressInUse"@,
            NetworkError::RemoteUnreachable => "RemoteUnreachable"@,
            NetworkError::ConnectionRefused => "ConnectionRefused"@,
            NetworkError::ConnectionReset => "ConnectionReset"@,
            NetworkError::ConnectionAborted => "ConnectionAborted"@,
            NetworkError::DatagramTooLarge => "DatagramTooLarge"@,
            NetworkError::NameUnresolvable => "NameUnresolvable"@,
            NetworkError::TemporaryResolverFailure => "TemporaryResolverFailure"@,
            NetworkError::PermanentResolverFailure => "PermanentResolverFailure"@,
        }
    }

    /// The name of the kind.
    pub fn code_name(self) -> (r: &'static str)
        ensures
            r@ == self.name(),
    {
        match self {
            NetworkError::Unknown => "Unknown",
            NetworkError::AccessDenied => "AccessDenied",
            NetworkError::NotSupported => "NotSupported",
            NetworkError::InvalidArgument => "InvalidArgument",
            NetworkError::OutOfMemory => "OutOfMemory",
            NetworkError::Timeout => "Timeout",
            NetworkError::ConcurrencyConflict => "ConcurrencyConflict",
            NetworkError::NotInProgress => "NotInProgress",
            NetworkError::WouldBlock => "WouldBlock",
            NetworkError::InvalidState => "InvalidState",
            NetworkError::NewSocketLimit => "NewSocketLimit",
            NetworkError::AddressNotBindable => "AddressNotBindable",
            NetworkError::AddressInUse => "AddressInUse",
            NetworkError::RemoteUnreachable => "RemoteUnreachable",
            NetworkError::ConnectionRefused => "ConnectionRefused",
            NetworkError::ConnectionReset => "ConnectionReset",
            NetworkError::ConnectionAborted => "ConnectionAborted",
            NetworkError::DatagramTooLarge => "DatagramTooLarge",
            NetworkError::NameUnresolvable => "NameUnresolvable",
            NetworkError::TemporaryResolverFailure => "TemporaryResolverFailure",
            NetworkError::PermanentResolverFailure => "PermanentResolverFailure",
        }
    }

    /// The error that reports the failure: `Network`, then the name of its
    /// kind.
    pub fn to_error(self) -> (e: Error)
        ensures
            e@ == ErrorView::Client("Network "@ + self.name()),
    {
        Error::Client(String::from_str("Network ").concat(self.code_name()))
    }
}

/// A failure of a stream of bytes.
#[derive(Debug, Clone, PartialEq, Eq)]
pub enum StreamError {
    /// The last operation failed; the text says how.
    LastOperationFailed(String),
    /// The stream is closed.
    Closed,
}

impl StreamError {
    /// The message that reports the failure.
    pub open spec fn message(self) -> Seq<char> {
        match self {
            StreamError::LastOperationFailed(detail) => "Stream LastOperationFailed: "@ + detail@,
            StreamError::Closed => "Stream Closed"@,
        }
    }

    /// The error that reports the failure.
    pub fn to_error(&self) -> (e: Error)
        ensures
            e@ == ErrorView::Client(self.message()),
    {
        match self {
            StreamError::LastOperationFailed(detail) => Error::Client(
                String::from_str("Stream LastOperationFailed: ").concat(detail.as_str()),
            ),
            StreamError::Closed => Error::Client(String::from_str("Stream Closed")),
        }
    }
}

/// An address of the internet, of either version.
#[derive(Debug, Clone, Copy, PartialEq, Eq)]
pub enum IpAddress {
    /// The four bytes of an address of version 4.
    Ipv4((u8, u8, u8, u8)),
    /// The eight segments of an address of version 6.
    Ipv6((u16, u16, u16, u16, u16, u16, u16, u16)),
}

/// An address of version 4 with a port.
#[derive(Debug, Clone, Copy, PartialEq, Eq)]
pub struct Ipv4SocketAddress {
    pub port: u16,
    pub address: (u8, u8, u8, u8),
}

/// An address of version 6 with a port.
#[derive(Debug, Clone, Copy, PartialEq, Eq)]
pub struct Ipv6SocketAddress {
    pub port: u16,
    pub flow_info: u32,
    pub address: (u16, u16, u16, u16, u16, u16, u16, u16),
    pub scope_id: u32,
}

/// An address to connect to.
#[derive(Debug, Clone, Copy, PartialEq, Eq)]
pub enum IpSocketAddress {
    Ipv4(Ipv4SocketAddress),
    Ipv6(Ipv6SocketAddress),
}

/// The address to connect to at `address` and `port`. For version 6 the
/// flow information and the scope are zero.
pub open spec fn socket_address_of(address: IpAddress, port: u16) -> IpSocketAddress {
    match address {
        IpAddress::Ipv4(address) => IpSocketAddress::Ipv4(Ipv4SocketAddress { port, address }),
        IpAddress::Ipv6(address) => IpSocketAddress::Ipv6(
            Ipv6SocketAddress { port, flow_info: 0, address, scope_id: 0 },
        ),
    }
}

/// The address to connect to at `address` and `port`.
pub fn socket_address(address: IpAddress, port: u16) -> (r: IpSocketAddress)
    ensures
        r == socket_address_of(address, port),
{
    match address {
        IpAddress::Ipv4(address) => IpSocketAddress::Ipv4(Ipv4SocketAddress { port, address }),
        IpAddress::Ipv6(address) => IpSocketAddress::Ipv6(
            Ipv6SocketAddress { port, flow_info: 0, address, scope_id: 0 },
        ),
    }
}

/// The addresses to connect to for a host: one for each address that the
/// host was resolved to, in the same order, all at `port`.
pub fn resolve_ip_socket_addresses(addresses: &Vec<IpAddress>, port: u16) -> (r: Vec<IpSocketAddress>)
    ensures
        r@ == addresses@.map_values(|address: IpAddress| socket_address_of(address, port)),
{
    let mut out: Vec<IpSocketAddress> = Vec::new();
    let mut i: usize = 0;
    while i < addresses.len()
        invariant
            i <= addresses@.len(),
            out@ == addresses@.take(i as int).map_values(|address: IpAddress| socket_address_of(address, port)),
        decreases addresses@.len() - i,
    {
        out.push(socket_address(addresses[i], port));
        proof {
            assert(addresses@.take(i + 1).map_values(|address: IpAddress| socket_address_of(address, port))
                =~= addresses@.take(i as int).map_values(
                |address: IpAddress| socket_address_of(address, port),
            ).push(socket_address_of(addresses@[i as int], port)));
        }
        i = i + 1;
    }
    proof {
        assert(addresses@.take(i as int) =~= addresses@);
    }
    out
}

} // verus!
