//! The envelopes that input events and control commands travel in.

use crate::shared_input::InputEvent;
use vstd::prelude::*;

verus! {

/// Marker in every input datagram; a packet without it is not input.
pub const INPUT_PROTOCOL: &'static str = "mykvm.input.v1";

/// Marker in every control datagram.
pub const INPUT_CONTROL_PROTOCOL: &'static str = "mykvm.input-control.v1";

/// Whether a field is left out of a packet on the wire.
pub fn str_ref_is_empty(value: &&str) -> (r: bool)
    ensures
        r == (value@.len() == 0),
{
    value.is_empty()
}

/// An input event with the sender's credentials, borrowed for sending. The
/// credential fields stay empty once a peer is known, and an empty field takes
/// no room on the wire.
#[derive(Debug)]
pub struct InputPacketRef<'a> {
    pub protocol: &'a str,
    pub target_device_id: &'a str,
    pub origin_device_id: &'a str,
    pub origin_port: u16,
    pub origin_transport_public_key: &'a str,
    pub origin_protocol_version: u16,
    pub cluster_id: &'a str,
    pub pair_secret: &'a str,
    pub event: &'a InputEvent,
}

/// The same as it arrives.
#[derive(Debug)]
pub struct InputPacket {
    pub protocol: String,
    pub target_device_id: String,
    pub origin_device_id: String,
    pub origin_port: u16,
    pub origin_transport_public_key: String,
    pub origin_protocol_version: u16,
    pub cluster_id: String,
    pub pair_secret: String,
    pub event: InputEvent,
}

/// What a controller can ask of a machine beside input.
#[derive(Debug, Clone, Copy, PartialEq, Eq, Structural)]
pub enum InputControlCommand {
    SecureAttention,
}

/// A control command with the sender's credentials.
#[derive(Debug)]
pub struct InputControlPacket {
    pub protocol: String,
    pub target_device_id: String,
    pub origin_device_id: String,
    pub origin_transport_public_key: String,
    pub origin_protocol_version: u16,
    pub cluster_id: String,
    pub pair_secret: String,
    pub command: InputControlCommand,
}

} // verus!
