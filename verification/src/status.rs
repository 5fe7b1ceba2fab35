//! What the runtime tells the user interface, and how it starts.

use crate::clipboard_target::ClipboardTarget;
use crate::layout::{is_local, stage_status, LayoutState, NativeStageStatus};
use crate::platform::Platform;
use crate::targets::{
    build_input_targets, normalize_quic_port, quic_port_of, target_views, targets_of, InputTarget,
    TargetView,
};
use crate::text::{decimal, push_decimal, same};
use vstd::prelude::*;

verus! {

/// What a status says.
pub open spec fn said(status: NativeStageStatus) -> (Seq<char>, Seq<char>) {
    (status.state@, status.detail@)
}

pub open spec fn capture_stopped() -> (Seq<char>, Seq<char>) {
    ("stubbed"@, "Input sharing is stopped."@)
}

pub fn stopped_capture_status() -> (r: NativeStageStatus)
    ensures
        said(r) == capture_stopped(),
{
    stage_status("stubbed", "Input sharing is stopped.")
}

pub open spec fn inject_stopped() -> (Seq<char>, Seq<char>) {
    ("stubbed"@, "Input injection is stopped."@)
}

pub fn stopped_inject_status() -> (r: NativeStageStatus)
    ensures
        said(r) == inject_stopped(),
{
    stage_status("stubbed", "Input injection is stopped.")
}

pub open spec fn receives_only() -> (Seq<char>, Seq<char>) {
    ("idle"@, "当前是仅接收模式：会接收远端输入，但不会捕获本机鼠标和键盘。"@)
}

pub fn receive_only_status() -> (r: NativeStageStatus)
    ensures
        said(r) == receives_only(),
{
    stage_status("idle", "当前是仅接收模式：会接收远端输入，但不会捕获本机鼠标和键盘。")
}

pub open spec fn capture_unsupported() -> (Seq<char>, Seq<char>) {
    ("stubbed"@, "Global input capture is not implemented on this platform."@)
}

pub fn unsupported_capture_status() -> (r: NativeStageStatus)
    ensures
        said(r) == capture_unsupported(),
{
    stage_status("stubbed", "Global input capture is not implemented on this platform.")
}

/// Whether a layout holds a remote device.
pub open spec fn has_remote(layout: LayoutState) -> bool {
    exists|i: int| 0 <= i < layout.devices@.len() && !is_local(#[trigger] layout.devices@[i])
}

/// Whether a layout holds a remote device that is online.
pub open spec fn has_online_remote(layout: LayoutState) -> bool {
    exists|i: int|
        0 <= i < layout.devices@.len() && !is_local(#[trigger] layout.devices@[i])
            && layout.devices@[i].online
}

/// Why nothing can be controlled.
pub open spec fn no_target(layout: LayoutState) -> (Seq<char>, Seq<char>) {
    (
        "idle"@,
        if !has_remote(layout) {
            "控制模式已开启，但布局里还没有远端设备。先让对方电脑运行 mykvm，再在 LAN devices 里 Scan 并 Add。"@
        } else if !has_online_remote(layout) {
            "控制模式已开启，但远端设备都被标记为离线。把要控制的设备切回 online 后再启动运行时。"@
        } else {
            "控制模式已开启，且已有在线远端设备，但屏幕还没有和本机贴边。拖动远端显示器贴住本机边缘后才会生成切屏目标。"@
        },
    )
}

pub fn no_target_status(layout: &LayoutState) -> (r: NativeStageStatus)
    ensures
        said(r) == no_target(*layout),
{
    let mut remote: bool = false;
    let mut online: bool = false;
    let mut i: usize = 0;
    while i < layout.devices.len()
        invariant
            i <= layout.devices.len(),
            remote == exists|j: int| 0 <= j < i && !is_local(#[trigger] layout.devices@[j]),
            online == exists|j: int|
                0 <= j < i && !is_local(#[trigger] layout.devices@[j]) && layout.devices@[j].online,
        decreases layout.devices.len() - i,
    {
        let device = &layout.devices[i];
        let ghost here = layout.devices@[i as int];
        assert(here == *device);
        if !same(device.role.as_str(), "local") {
            assert(!is_local(layout.devices@[i as int]));
            remote = true;
            if device.online {
                online = true;
            }
        }
        i = i + 1;
    }
    if !remote {
        stage_status(
            "idle",
            "控制模式已开启，但布局里还没有远端设备。先让对方电脑运行 mykvm，再在 LAN devices 里 Scan 并 Add。",
        )
    } else if !online {
        stage_status(
            "idle",
            "控制模式已开启，但远端设备都被标记为离线。把要控制的设备切回 online 后再启动运行时。",
        )
    } else {
        stage_status(
            "idle",
            "控制模式已开启，且已有在线远端设备，但屏幕还没有和本机贴边。拖动远端显示器贴住本机边缘后才会生成切屏目标。",
        )
    }
}

/// What the system lets this machine inject.
#[derive(Debug, Clone, Copy, PartialEq, Eq, Structural)]
pub struct Permissions {
    /// Whether macOS trusts the application with accessibility.
    pub accessibility_trusted: bool,
    /// Whether macOS discards injected keys at the moment.
    pub secure_input: bool,
}

/// Whether input can be received.
pub open spec fn receiving(
    layout: LayoutState,
    platform: Platform,
    permissions: Permissions,
) -> (Seq<char>, Seq<char>) {
    if platform == Platform::MacOs && !permissions.accessibility_trusted {
        (
            "error"@,
            "macOS 需要给 MyKVM 辅助功能权限才能注入远端点击和键盘。请到 系统设置 > 隐私与安全性 > 辅助功能 启用 MyKVM，然后完全退出并重新打开应用。"@,
        )
    } else if platform == Platform::MacOs && permissions.secure_input {
        (
            "error"@,
            "检测到 macOS 安全键盘输入(Secure Keyboard Entry)已开启，系统会拦截所有注入的键盘事件（鼠标点击不受影响）。请退出正在占用安全输入的应用——常见来源：终端里勾选的“安全键盘输入”、聚焦中的密码输入框、部分密码管理器；必要时注销重新登录，然后重试。"@,
        )
    } else {
        (
            "ready"@,
            "Receiving shared input on QUIC datagrams at UDP "@ + decimal(
                quic_port_of(layout.transport_port, layout.quic_port) as nat,
            ) + "."@,
        )
    }
}

pub fn input_receive_status(
    layout: &LayoutState,
    platform: Platform,
    permissions: Permissions,
) -> (r: NativeStageStatus)
    ensures
        said(r) == receiving(*layout, platform, permissions),
{
    match platform {
        Platform::MacOs => {
            if !permissions.accessibility_trusted {
                return stage_status(
                    "error",
                    "macOS 需要给 MyKVM 辅助功能权限才能注入远端点击和键盘。请到 系统设置 > 隐私与安全性 > 辅助功能 启用 MyKVM，然后完全退出并重新打开应用。",
                );
            }
            if permissions.secure_input {
                return stage_status(
                    "error",
                    "检测到 macOS 安全键盘输入(Secure Keyboard Entry)已开启，系统会拦截所有注入的键盘事件（鼠标点击不受影响）。请退出正在占用安全输入的应用——常见来源：终端里勾选的“安全键盘输入”、聚焦中的密码输入框、部分密码管理器；必要时注销重新登录，然后重试。",
                );
            }
        },
        _ => {},
    }
    let mut detail = String::from_str("Receiving shared input on QUIC datagrams at UDP ");
    push_decimal(&mut detail, normalize_quic_port(layout.transport_port, layout.quic_port) as u64);
    detail.append(".");
    NativeStageStatus { state: String::from_str("ready"), detail }
}

/// The capture is ready, with a number of targets.
pub open spec fn capture_ready(target_count: nat) -> (Seq<char>, Seq<char>) {
    (
        "ready"@,
        "控制端已就绪，"@ + decimal(target_count)
            + " 条远端贴边可用于鼠标和键盘切换。"@,
    )
}

pub fn ready_capture_status(target_count: usize) -> (r: NativeStageStatus)
    ensures
        said(r) == capture_ready(target_count as nat),
{
    let mut detail = String::from_str("控制端已就绪，");
    push_decimal(&mut detail, target_count as u64);
    detail.append(" 条远端贴边可用于鼠标和键盘切换。");
    NativeStageStatus { state: String::from_str("ready"), detail }
}

/// The states of capturing and injecting while the runtime is not running.
pub open spec fn runtime_status(
    layout: LayoutState,
    target_count: nat,
    platform: Platform,
    permissions: Permissions,
) -> ((Seq<char>, Seq<char>), (Seq<char>, Seq<char>)) {
    (
        if layout.input_mode@ == "receive"@ {
            receives_only()
        } else if target_count == 0 {
            no_target(layout)
        } else if platform == Platform::MacOs || platform == Platform::Windows {
            capture_ready(target_count)
        } else {
            capture_unsupported()
        },
        receiving(layout, platform, permissions),
    )
}

pub fn input_runtime_status(
    layout: &LayoutState,
    native_layout: &LayoutState,
    origin_device_id: &str,
    platform: Platform,
    permissions: Permissions,
) -> (r: (NativeStageStatus, NativeStageStatus))
    ensures
        (said(r.0), said(r.1)) == runtime_status(
            *layout,
            targets_of(*layout, *native_layout, origin_device_id@, platform).len(),
            platform,
            permissions,
        ),
{
    let targets = build_input_targets(layout, native_layout, origin_device_id, platform);
    assert(target_views(targets@).len() == targets@.len());
    let capturable: bool = match platform {
        Platform::MacOs => true,
        Platform::Windows => true,
        _ => false,
    };
    let capture = if same(layout.input_mode.as_str(), "receive") {
        receive_only_status()
    } else if targets.len() == 0 {
        no_target_status(layout)
    } else if capturable {
        ready_capture_status(targets.len())
    } else {
        unsupported_capture_status()
    };
    (capture, input_receive_status(layout, platform, permissions))
}

/// What a start of the runtime asks for besides the state of injection.
#[derive(Debug)]
pub enum CaptureStart {
    /// Nothing is captured: input is only received, or the platform has no
    /// capture.
    Nothing(NativeStageStatus),
    /// The capture of the platform is to be started with these targets.
    Capture(Vec<InputTarget>),
}

/// The same, as texts.
pub enum CaptureStartView {
    Nothing((Seq<char>, Seq<char>)),
    Capture(Seq<TargetView>),
}

impl View for CaptureStart {
    type V = CaptureStartView;

    open spec fn view(&self) -> CaptureStartView {
        match self {
            CaptureStart::Nothing(status) => CaptureStartView::Nothing(said(*status)),
            CaptureStart::Capture(targets) => CaptureStartView::Capture(target_views(targets@)),
        }
    }
}

/// How capturing starts.
pub open spec fn capture_start(
    layout: LayoutState,
    native_layout: LayoutState,
    origin_id: Seq<char>,
    platform: Platform,
) -> CaptureStartView {
    if layout.input_mode@ == "receive"@ {
        CaptureStartView::Nothing(receives_only())
    } else if platform == Platform::Other {
        CaptureStartView::Nothing(capture_unsupported())
    } else {
        CaptureStartView::Capture(targets_of(layout, native_layout, origin_id, platform))
    }
}

/// Starts the runtime: says how capturing starts and whether input can be
/// received. Where nothing is captured, nothing is controlled and there is no
/// clipboard to share.
pub fn start_input_runtime(
    layout: &LayoutState,
    native_layout: &LayoutState,
    origin_device_id: &str,
    platform: Platform,
    permissions: Permissions,
    remote_active: &mut bool,
    clipboard_target: &mut Option<ClipboardTarget>,
) -> (r: (CaptureStart, NativeStageStatus))
    ensures
        r.0@ == capture_start(*layout, *native_layout, origin_device_id@, platform),
        said(r.1) == receiving(*layout, platform, permissions),
        r.0@ is Nothing ==> !*final(remote_active) && *final(clipboard_target) is None,
        r.0@ is Capture ==> *final(remote_active) == *old(remote_active)
            && *final(clipboard_target) == *old(clipboard_target),
{
    let inject = input_receive_status(layout, platform, permissions);
    if same(layout.input_mode.as_str(), "receive") {
        *remote_active = false;
        *clipboard_target = None;
        return (CaptureStart::Nothing(receive_only_status()), inject);
    }
    let supported: bool = match platform {
        Platform::Other => false,
        _ => true,
    };
    if !supported {
        *remote_active = false;
        *clipboard_target = None;
        return (CaptureStart::Nothing(unsupported_capture_status()), inject);
    }
    let targets = build_input_targets(layout, native_layout, origin_device_id, platform);
    (CaptureStart::Capture(targets), inject)
}

/// How the capture thread came up.
#[derive(Debug)]
pub enum ThreadStart {
    Ready,
    Failed(String),
    /// It did not answer in time.
    Silent,
}

/// The state of a capture whose thread was started.
pub open spec fn thread_started(platform: Platform, start: ThreadStart, target_count: nat) -> (
    Seq<char>,
    Seq<char>,
) {
    match start {
        ThreadStart::Ready => capture_ready(target_count),
        ThreadStart::Failed(error) => ("error"@, error@),
        ThreadStart::Silent => (
            "error"@,
            if platform == Platform::MacOs {
                "macOS input capture did not become ready."@
            } else {
                "Windows input capture did not become ready."@
            },
        ),
    }
}

/// Reports how a capture on macOS or Windows came up.
pub fn started_capture_status(platform: Platform, start: ThreadStart, target_count: usize) -> (r:
    NativeStageStatus)
    requires
        platform == Platform::MacOs || platform == Platform::Windows,
    ensures
        said(r) == thread_started(platform, start, target_count as nat),
{
    match start {
        ThreadStart::Ready => ready_capture_status(target_count),
        ThreadStart::Failed(error) => NativeStageStatus {
            state: String::from_str("error"),
            detail: error,
        },
        ThreadStart::Silent => match platform {
            Platform::MacOs => stage_status("error", "macOS input capture did not become ready."),
            _ => stage_status("error", "Windows input capture did not become ready."),
        },
    }
}

} // verus!
