//! The arrangement of machines and screens that the user maintains, and the
//! settings that travel with it.

use crate::double::Double;
use crate::seqs::{find, first};
use crate::text::same;
use vstd::prelude::*;

verus! {

/// One screen of a machine, in layout coordinates.
#[derive(Debug)]
pub struct Screen {
    pub id: String,
    pub device_id: String,
    pub name: String,
    pub x: i32,
    pub y: i32,
    pub width: i32,
    pub height: i32,
    pub scale: Double,
    pub is_primary: bool,
}

impl Clone for Screen {
    fn clone(&self) -> (r: Screen)
        ensures
            r == *self,
    {
        Screen {
            id: self.id.clone(),
            device_id: self.device_id.clone(),
            name: self.name.clone(),
            x: self.x,
            y: self.y,
            width: self.width,
            height: self.height,
            scale: self.scale,
            is_primary: self.is_primary,
        }
    }
}

/// A rectangle of pixels.
pub struct Rect {
    pub x: int,
    pub y: int,
    pub width: int,
    pub height: int,
}

impl Rect {
    /// The first column to the right of the rectangle.
    pub open spec fn right(self) -> int {
        self.x + self.width
    }

    /// The first row below the rectangle.
    pub open spec fn bottom(self) -> int {
        self.y + self.height
    }

    /// Whether the rectangle holds a pixel.
    pub open spec fn has_area(self) -> bool {
        self.width >= 1 && self.height >= 1
    }
}

impl Screen {
    /// The pixels of the screen.
    pub open spec fn rect(self) -> Rect {
        Rect {
            x: self.x as int,
            y: self.y as int,
            width: self.width as int,
            height: self.height as int,
        }
    }

    pub fn right_edge(&self) -> (r: i64)
        ensures
            r == self.rect().right(),
    {
        self.x as i64 + self.width as i64
    }

    pub fn bottom_edge(&self) -> (r: i64)
        ensures
            r == self.rect().bottom(),
    {
        self.y as i64 + self.height as i64
    }
}

/// One machine of the layout.
#[derive(Debug)]
pub struct Device {
    pub id: String,
    pub name: String,
    pub platform: String,
    pub host: String,
    pub transport_port: u16,
    pub quic_port: u16,
    pub transport_public_key: String,
    pub protocol_version: u16,
    pub color: String,
    pub online: bool,
    pub input_ready: bool,
    pub upgrading: bool,
    pub upgrading_until_ms: u64,
    pub role: String,
    pub source: String,
    pub screens: Vec<Screen>,
}

/// One end of an edge link: a stretch of one side of one screen.
#[derive(Debug)]
pub struct EdgeAnchor {
    pub device_id: String,
    pub screen_id: String,
    /// "left", "right", "top" or "bottom".
    pub side: String,
    pub start: Double,
    pub end: Double,
}

/// What an anchor says, as texts and numbers.
pub struct AnchorView {
    pub device_id: Seq<char>,
    pub screen_id: Seq<char>,
    pub side: Seq<char>,
    pub start: Double,
    pub end: Double,
}

impl View for EdgeAnchor {
    type V = AnchorView;

    open spec fn view(&self) -> AnchorView {
        AnchorView {
            device_id: self.device_id@,
            screen_id: self.screen_id@,
            side: self.side@,
            start: self.start,
            end: self.end,
        }
    }
}

impl Clone for EdgeAnchor {
    fn clone(&self) -> (r: EdgeAnchor)
        ensures
            r == *self,
    {
        EdgeAnchor {
            device_id: self.device_id.clone(),
            screen_id: self.screen_id.clone(),
            side: self.side.clone(),
            start: self.start,
            end: self.end,
        }
    }
}

/// Two stretches of screen side that the cursor passes between.
#[derive(Debug)]
pub struct EdgeLink {
    pub id: String,
    pub a: EdgeAnchor,
    pub b: EdgeAnchor,
}

/// What a link says, as texts and numbers.
pub struct LinkView {
    pub id: Seq<char>,
    pub a: AnchorView,
    pub b: AnchorView,
}

impl View for EdgeLink {
    type V = LinkView;

    open spec fn view(&self) -> LinkView {
        LinkView { id: self.id@, a: self.a@, b: self.b@ }
    }
}

impl Clone for EdgeLink {
    fn clone(&self) -> (r: EdgeLink)
        ensures
            r == *self,
    {
        EdgeLink { id: self.id.clone(), a: self.a.clone(), b: self.b.clone() }
    }
}

/// What a list of links says.
pub open spec fn link_views(links: Seq<EdgeLink>) -> Seq<LinkView> {
    links.map_values(|link: EdgeLink| link@)
}

/// A controller that this machine was paired with.
#[derive(Debug)]
pub struct PairedController {
    pub id: String,
    pub name: String,
    pub host: String,
    pub ip: String,
    pub transport_public_key: String,
    pub protocol_version: u16,
    pub cluster_id: String,
    pub paired_at_ms: u64,
}

/// What each logical modifier becomes on a machine of another platform:
/// "control", "alt", "meta", or "same" to leave it alone.
#[derive(Debug)]
pub struct ModifierMap {
    pub control: String,
    pub alt: String,
    pub meta: String,
}

/// The map in force unless the user chose another: control and meta change
/// places, alt stays.
pub fn default_modifier_map() -> (r: ModifierMap)
    ensures
        r.control@ == "meta"@,
        r.alt@ == "same"@,
        r.meta@ == "control"@,
{
    ModifierMap {
        control: String::from_str("meta"),
        alt: String::from_str("same"),
        meta: String::from_str("control"),
    }
}

/// The key chords that move control to the screen on each side.
#[derive(Debug)]
pub struct ScreenSwitchHotkeys {
    pub left: String,
    pub right: String,
    pub up: String,
    pub down: String,
}

/// The arrangement of machines and the settings kept beside it.
#[derive(Debug)]
pub struct LayoutState {
    pub devices: Vec<Device>,
    /// "control" or "receive".
    pub input_mode: String,
    /// "server" or "client".
    pub machine_role: String,
    pub cluster_id: String,
    pub pair_secret: String,
    pub paired_controllers: Vec<PairedController>,
    pub transport_port: u16,
    pub quic_port: u16,
    pub modifier_remap: bool,
    pub modifier_map: ModifierMap,
    pub screen_switch_hotkeys: ScreenSwitchHotkeys,
    /// The wiring that the user drew. `None` in a layout saved before links
    /// could be drawn, which is then wired by geometry.
    pub edge_links: Option<Vec<EdgeLink>>,
}

/// A stage of the runtime as the user interface shows it.
#[derive(Debug)]
pub struct NativeStageStatus {
    pub state: String,
    pub detail: String,
}

/// A status with the given texts.
pub fn stage_status(state: &str, detail: &str) -> (r: NativeStageStatus)
    ensures
        r.state@ == state@,
        r.detail@ == detail@,
{
    NativeStageStatus { state: String::from_str(state), detail: String::from_str(detail) }
}

/// Whether a device is the machine that holds the layout.
pub open spec fn is_local(device: Device) -> bool {
    device.role@ == "local"@
}

/// The machine that holds the layout: the first device in the local role.
pub open spec fn own_device_of(layout: LayoutState) -> Option<Device> {
    first(layout.devices@, |device: Device| is_local(device))
}

pub fn own_device(layout: &LayoutState) -> (r: Option<&Device>)
    ensures
        match r {
            Some(device) => own_device_of(*layout) == Some(*device),
            None => own_device_of(*layout) is None,
        },
{
    let test = |device: &Device| -> (b: bool)
        ensures
            b == is_local(*device),
        { same(device.role.as_str(), "local") };
    find(&layout.devices, test, Ghost(|device: Device| is_local(device)))
}

/// The machine that holds the layout, or the first one where none is marked.
pub open spec fn local_device_of(layout: LayoutState) -> Option<Device> {
    match own_device_of(layout) {
        Some(device) => Some(device),
        None => if layout.devices@.len() > 0 {
            Some(layout.devices@[0])
        } else {
            None
        },
    }
}

pub fn local_device(layout: &LayoutState) -> (r: Option<&Device>)
    ensures
        match r {
            Some(device) => local_device_of(*layout) == Some(*device),
            None => local_device_of(*layout) is None,
        },
{
    match own_device(layout) {
        Some(device) => Some(device),
        None => if layout.devices.len() > 0 {
            Some(&layout.devices[0])
        } else {
            None
        },
    }
}

/// The test for a screen that goes by an id.
pub open spec fn goes_by(id: Seq<char>) -> spec_fn(Screen) -> bool {
    |screen: Screen| screen.id@ == id
}

/// The first screen of a list that goes by an id.
pub open spec fn screen_named(screens: Seq<Screen>, id: Seq<char>) -> Option<Screen> {
    first(screens, goes_by(id))
}

pub fn find_screen<'a>(screens: &'a Vec<Screen>, id: &str) -> (r: Option<&'a Screen>)
    ensures
        match r {
            Some(screen) => screen_named(screens@, id@) == Some(*screen),
            None => screen_named(screens@, id@) is None,
        },
{
    let test = |screen: &Screen| -> (b: bool)
        ensures
            b == (screen.id@ == id@),
        { same(screen.id.as_str(), id) };
    find(screens, test, Ghost(goes_by(id@)))
}

} // verus!
