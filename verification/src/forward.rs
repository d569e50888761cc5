//! The forwarder of the local resolver: what it answers without asking
//! upstream, and how it binds the sockets it asks with.

use crate::ip::{Endpoint, IpAddress};
use vstd::prelude::*;

verus! {

/// Marks the runtime whose UDP sockets are bound to the tunnel before the
/// resolver uses them.
#[derive(Clone, Copy, Debug, PartialEq, Eq)]
pub struct TelioRuntime;

/// The local endpoint that a socket towards `addr` is bound to: the
/// unspecified address of the same family, and a port left to the system.
/// The socket is not connected to `addr`, so that it receives from any.
pub fn bind_addr_for(addr: &Endpoint) -> (bind: Endpoint)
    ensures
        bind == (Endpoint {
            ip: match addr.ip {
                IpAddress::V4(_) => IpAddress::V4(0),
                IpAddress::V6(_) => IpAddress::V6(0),
            },
            port: 0,
            scope_id: 0,
        }),
{
    match addr.ip {
        IpAddress::V4(_) => Endpoint { ip: IpAddress::V4(0), port: 0, scope_id: 0 },
        IpAddress::V6(_) => Endpoint { ip: IpAddress::V6(0), port: 0, scope_id: 0 },
    }
}

/// Whether the forwarder keeps the records that lead to an answer: always,
/// as a forwarder has to pass aliases on. The second part says whether
/// the option asked for had to be changed.
pub fn preserve_intermediates(asked: bool) -> (r: (bool, bool))
    ensures
        r.0,
        r.1 == !asked,
{
    (true, !asked)
}

/// The kind of a zone that is forwarded.
#[derive(Clone, Copy, Debug, PartialEq, Eq, Structural)]
pub enum ZoneType {
    Primary,
    Secondary,
    Hint,
    Forward,
}

/// The code that an answer carries.
#[derive(Clone, Copy, Debug, PartialEq, Eq, Structural)]
pub enum ResponseCode {
    /// A code of the protocol, by its number.
    Known(u16),
    /// No code of the protocol, with the number found.
    Unknown(u16),
}

/// The number of the code "not implemented".
pub const NOT_IMPLEMENTED: u16 = 4;

/// The code that the forwarder answers a failed lookup with: the code
/// that came from upstream where upstream had no records, and else an
/// unknown code 0.
pub fn lookup_error(no_records_found: Option<ResponseCode>) -> (code: ResponseCode)
    ensures
        code == match no_records_found {
            Some(c) => c,
            None => ResponseCode::Unknown(0),
        },
{
    match no_records_found {
        Some(c) => c,
        None => ResponseCode::Unknown(0),
    }
}

/// What a forwarded zone answers of itself: it is of kind `Forward`, it
/// allows no transfer, and it answers an update with "not implemented".
pub fn forward_zone() -> (r: (ZoneType, bool, ResponseCode))
    ensures
        r == (ZoneType::Forward, false, ResponseCode::Known(NOT_IMPLEMENTED)),
{
    (ZoneType::Forward, false, ResponseCode::Known(NOT_IMPLEMENTED))
}

} // verus!
