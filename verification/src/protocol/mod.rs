//! The wire protocol: reply encoders, the inline command parser, and the
//! per-connection protocol version.

pub mod decimal;
pub mod encoder;
pub mod parser;

use vstd::prelude::*;

verus! {

/// Wire protocol version negotiated per connection.
///
/// All connections start on RESP2; a client may move to RESP3 with a
/// `HELLO 3` handshake.
#[derive(Clone, Copy, Debug, PartialEq, Eq, Structural)]
pub enum ProtocolVersion {
    Resp2,
    Resp3,
}

impl Default for ProtocolVersion {
    /// A new connection speaks RESP2.
    fn default() -> (v: ProtocolVersion)
        ensures
            v == ProtocolVersion::Resp2,
    {
        ProtocolVersion::Resp2
    }
}

} // verus!
