//! The peer that copies on this machine go to.

use crate::active::ActiveTarget;
use crate::layout::{Device, LayoutState};
use crate::seqs::{find, first};
use crate::targets::{device_address, device_address_text};
use crate::text::same;
use vstd::prelude::*;

verus! {

/// A peer that clipboard contents are sent to. `expires_at` is in nanoseconds.
#[derive(Debug)]
pub struct ClipboardTarget {
    pub device_id: String,
    pub addr: String,
    pub transport_public_key: String,
    pub protocol_version: u16,
    pub cluster_id: String,
    pub pair_secret: String,
    pub expires_at: Option<u64>,
}

/// What a clipboard target says, as texts and numbers.
pub struct ClipboardTargetView {
    pub device_id: Seq<char>,
    pub addr: Seq<char>,
    pub transport_public_key: Seq<char>,
    pub protocol_version: u16,
    pub cluster_id: Seq<char>,
    pub pair_secret: Seq<char>,
    pub expires_at: Option<u64>,
}

impl View for ClipboardTarget {
    type V = ClipboardTargetView;

    open spec fn view(&self) -> ClipboardTargetView {
        ClipboardTargetView {
            device_id: self.device_id@,
            addr: self.addr@,
            transport_public_key: self.transport_public_key@,
            protocol_version: self.protocol_version,
            cluster_id: self.cluster_id@,
            pair_secret: self.pair_secret@,
            expires_at: self.expires_at,
        }
    }
}

impl Clone for ClipboardTarget {
    fn clone(&self) -> (r: ClipboardTarget)
        ensures
            r == *self,
    {
        ClipboardTarget {
            device_id: self.device_id.clone(),
            addr: self.addr.clone(),
            transport_public_key: self.transport_public_key.clone(),
            protocol_version: self.protocol_version,
            cluster_id: self.cluster_id.clone(),
            pair_secret: self.pair_secret.clone(),
            expires_at: self.expires_at,
        }
    }
}

/// What an optional clipboard target says.
pub open spec fn clipboard_view(target: Option<ClipboardTarget>) -> Option<ClipboardTargetView> {
    match target {
        Some(target) => Some(target@),
        None => None,
    }
}

pub fn clear_clipboard_target(target: &mut Option<ClipboardTarget>)
    ensures
        *final(target) is None,
{
    *target = None;
}

/// Whether a target's time is over.
pub open spec fn expired(target: ClipboardTarget, now: u64) -> bool {
    target.expires_at matches Some(at) && now >= at
}

/// The target in force. One whose time is over is dropped.
pub fn current_clipboard_target(target: &mut Option<ClipboardTarget>, now: u64) -> (r: Option<
    ClipboardTarget,
>)
    ensures
        match *old(target) {
            Some(current) => if expired(current, now) {
                r is None && *final(target) is None
            } else {
                r == Some(current) && *final(target) == *old(target)
            },
            None => r is None && *final(target) is None,
        },
{
    let over: bool = match target.as_ref() {
        Some(current) => match current.expires_at {
            Some(at) => now >= at,
            None => false,
        },
        None => false,
    };
    if over {
        *target = None;
        return None;
    }
    match target.as_ref() {
        Some(current) => Some(current.clone()),
        None => None,
    }
}

/// The test for a device that goes by an id and takes input.
pub open spec fn awake_as(id: Seq<char>) -> spec_fn(Device) -> bool {
    |device: Device| device.id@ == id && device.online && device.input_ready
}

/// The clipboard target while a device is being controlled: the device, where
/// it is online and ready, and else what it was.
pub open spec fn controlled_clipboard(
    before: Option<ClipboardTargetView>,
    layout: LayoutState,
    device_id: Seq<char>,
) -> Option<ClipboardTargetView> {
    match first(layout.devices@, awake_as(device_id)) {
        Some(device) => Some(
            ClipboardTargetView {
                device_id,
                addr: device_address(device),
                transport_public_key: device.transport_public_key@,
                protocol_version: device.protocol_version,
                cluster_id: layout.cluster_id@,
                pair_secret: layout.pair_secret@,
                expires_at: None,
            },
        ),
        None => before,
    }
}

pub fn set_control_clipboard_target(
    target: &mut Option<ClipboardTarget>,
    active: &ActiveTarget,
    layout: &LayoutState,
)
    ensures
        clipboard_view(*final(target)) == controlled_clipboard(
            clipboard_view(*old(target)),
            *layout,
            active.target.device_id@,
        ),
{
    let id = active.target.device_id.as_str();
    let test = |device: &Device| -> (b: bool)
        ensures
            b == (device.id@ == id@ && device.online && device.input_ready),
        { same(device.id.as_str(), id) && device.online && device.input_ready };
    match find(&layout.devices, test, Ghost(awake_as(id@))) {
        Some(device) => {
            *target = Some(
                ClipboardTarget {
                    device_id: active.target.device_id.clone(),
                    addr: device_address_text(device),
                    transport_public_key: device.transport_public_key.clone(),
                    protocol_version: device.protocol_version,
                    cluster_id: layout.cluster_id.clone(),
                    pair_secret: layout.pair_secret.clone(),
                    expires_at: None,
                },
            );
        },
        None => {},
    }
}

} // verus!
