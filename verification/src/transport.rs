//! What the library knows of the transport between peers.

use vstd::prelude::*;

verus! {

/// The version of the wire format. Two peers talk to each other exactly when
/// they carry the same one.
pub const PROTOCOL_VERSION: u16 = 1;

/// Where and as whom a peer is reached.
#[derive(Debug)]
pub struct PeerEndpoint {
    pub addr: String,
    pub public_key: String,
    pub protocol_version: u16,
}

/// The same, as texts and numbers.
pub struct EndpointView {
    pub addr: Seq<char>,
    pub public_key: Seq<char>,
    pub protocol_version: u16,
}

impl View for PeerEndpoint {
    type V = EndpointView;

    open spec fn view(&self) -> EndpointView {
        EndpointView {
            addr: self.addr@,
            public_key: self.public_key@,
            protocol_version: self.protocol_version,
        }
    }
}

pub open spec fn endpoint_views(v: Seq<PeerEndpoint>) -> Seq<EndpointView> {
    v.map_values(|endpoint: PeerEndpoint| endpoint@)
}

} // verus!
