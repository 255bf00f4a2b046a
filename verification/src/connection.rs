//! Connection constants both ends agree on byte-for-byte.

use vstd::prelude::*;

verus! {

/// Netcode protocol id. Server and client must agree or the handshake is
/// rejected; bump it on any breaking wire change.
pub const PROTOCOL_ID: u64 = 0x5701_0000_0000_0002;

/// Default listen / connect port for local development.
pub const SERVER_PORT: u16 = 5000;

} // verus!
