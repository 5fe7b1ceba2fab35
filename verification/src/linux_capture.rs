//! Capturing the pointer of a Linux machine: which screen edges get a barrier,
//! and what happens once one is crossed.

use crate::active::{
    barrier_entry_fits, entry_fits, entry_from_barrier, exit_over_link, held_on_screen, keep_on,
    linux_entry_from_barrier, linux_exit_return, move_event, remote_mouse_move, shifted,
    ActiveTarget, ActiveView,
};
use crate::clipboard_target::{
    clipboard_view, controlled_clipboard, set_control_clipboard_target, ClipboardTarget,
    ClipboardTargetView,
};
use crate::double::Double;
use crate::edge::{Edge, Point};
use crate::layout::{local_device, local_device_of, LayoutState, NativeStageStatus, Rect, Screen};
use crate::linux_input::{BarrierSpec, CaptureEvent, CaptureReady, Reaction};
use crate::seqs::{find, first};
use crate::shared_input::{EventView, InputEvent};
use crate::status::{no_target, no_target_status, said};
use crate::targets::{target_views, InputTarget, TargetView};
use crate::text::{
    decimal, join, joined, push_decimal, push_signed_decimal, same, signed_decimal, texts,
};
use vstd::prelude::*;

verus! {

// ---------------------------------------------------------------------------
// Which edges get a barrier
// ---------------------------------------------------------------------------
/// The line that an edge lies on, as the compositor counts it.
pub open spec fn line_of(screen: Rect, edge: Edge) -> int {
    match edge {
        Edge::Top => screen.y,
        Edge::Bottom => screen.bottom(),
        Edge::Left => screen.x,
        Edge::Right => screen.right(),
    }
}

/// The first and the last position along an edge.
pub open spec fn stretch_of(screen: Rect, edge: Edge) -> (int, int) {
    if edge.horizontal() {
        (screen.x, screen.right() - 1)
    } else {
        (screen.y, screen.bottom() - 1)
    }
}

/// Whether a screen borders an edge of another one: one of its own edges lies
/// on the same line, and along it the two have a position in common.
pub open spec fn borders(screen: Rect, edge: Edge, other: Rect) -> bool {
    let line = line_of(screen, edge);
    let (start, end) = stretch_of(screen, edge);
    let (near, far) = if edge.horizontal() {
        (other.y, other.bottom())
    } else {
        (other.x, other.right())
    };
    let (other_start, other_end) = stretch_of(other, edge);
    (line == near || line == far) && start <= other_end && other_start <= end
}

/// The test for another screen that borders an edge.
pub open spec fn bordering(screen: Screen, edge: Edge) -> spec_fn(Screen) -> bool {
    |other: Screen| other.id@ != screen.id@ && borders(screen.rect(), edge, other.rect())
}

fn is_bordering(screen: &Screen, edge: Edge, other: &Screen) -> (r: bool)
    ensures
        r == borders(screen.rect(), edge, other.rect()),
{
    let (line, start, end): (i64, i64, i64) = match edge {
        Edge::Top => (screen.y as i64, screen.x as i64, screen.right_edge() - 1),
        Edge::Bottom => (screen.bottom_edge(), screen.x as i64, screen.right_edge() - 1),
        Edge::Left => (screen.x as i64, screen.y as i64, screen.bottom_edge() - 1),
        Edge::Right => (screen.right_edge(), screen.y as i64, screen.bottom_edge() - 1),
    };
    let (near, far, other_start, other_end): (i64, i64, i64, i64) = if edge.runs_horizontally() {
        (other.y as i64, other.bottom_edge(), other.x as i64, other.right_edge() - 1)
    } else {
        (other.x as i64, other.right_edge(), other.y as i64, other.bottom_edge() - 1)
    };
    (line == near || line == far) && start <= other_end && other_start <= end
}

/// The local screen that makes an edge unusable for a barrier, if there is one:
/// a barrier has to fill an edge that no other screen touches.
pub fn linux_edge_blocked_by<'a>(screen: &Screen, edge: Edge, local_screens: &'a Vec<Screen>) -> (r:
    Option<&'a Screen>)
    ensures
        match r {
            Some(other) => first(local_screens@, bordering(*screen, edge)) == Some(*other),
            None => first(local_screens@, bordering(*screen, edge)) is None,
        },
{
    let test = |other: &Screen| -> (b: bool)
        ensures
            b == (other.id@ != screen.id@ && borders(screen.rect(), edge, other.rect())),
        { !same(other.id.as_str(), screen.id.as_str()) && is_bordering(screen, edge, other) };
    find(local_screens, test, Ghost(bordering(*screen, edge)))
}

/// Where a barrier along an edge starts and ends.
pub open spec fn segment(screen: Rect, edge: Edge) -> (int, int, int, int) {
    match edge {
        Edge::Left => (screen.x, screen.y, screen.x, screen.bottom() - 1),
        Edge::Right => (screen.right(), screen.y, screen.right(), screen.bottom() - 1),
        Edge::Top => (screen.x, screen.y, screen.right() - 1, screen.y),
        Edge::Bottom => (screen.x, screen.bottom(), screen.right() - 1, screen.bottom()),
    }
}

/// Whether the edges of a screen have coordinates.
pub open spec fn edges_fit(screen: Rect) -> bool {
    &&& i32::MIN < screen.right() <= i32::MAX
    &&& i32::MIN < screen.bottom() <= i32::MAX
}

/// The segment of a barrier.
pub open spec fn segment_of(barrier: BarrierSpec) -> (int, int, int, int) {
    (barrier.x1 as int, barrier.y1 as int, barrier.x2 as int, barrier.y2 as int)
}

/// The barrier for a segment.
pub open spec fn barrier_on(id: nat, at: (int, int, int, int)) -> BarrierSpec {
    BarrierSpec {
        id: id as u32,
        x1: at.0 as i32,
        y1: at.1 as i32,
        x2: at.2 as i32,
        y2: at.3 as i32,
    }
}

/// What an edge is called where it cannot be armed.
pub open spec fn note_on(screen: Screen, edge: Edge, blocker: Screen) -> Seq<char> {
    screen.name@ + " ("@ + edge.label() + " \u{2192} "@ + blocker.name@ + ")"@
}

fn blocked_note(screen: &Screen, edge: Edge, blocker: &Screen) -> (r: String)
    ensures
        r@ == note_on(*screen, edge, *blocker),
{
    let mut note = screen.name.clone();
    note.append(" (");
    note.append(edge.as_label());
    note.append(" \u{2192} ");
    note.append(blocker.name.as_str());
    note.append(")");
    note
}

/// The screen edge that a barrier covers.
#[derive(Debug)]
pub struct BarrierEdge {
    pub id: u32,
    pub screen_id: String,
    pub edge: Edge,
}

/// The barriers to arm, the edge that each covers, and the edges that cannot be
/// armed.
#[derive(Debug)]
pub struct BarrierPlan {
    pub barriers: Vec<BarrierSpec>,
    pub edges: Vec<BarrierEdge>,
    pub blocked: Vec<String>,
}

/// The same, as texts and numbers.
pub struct BarrierPlanView {
    pub barriers: Seq<BarrierSpec>,
    pub edges: Seq<(u32, Seq<char>, Edge)>,
    pub blocked: Seq<Seq<char>>,
}

/// What a list of edges says.
pub open spec fn edge_views(edges: Seq<BarrierEdge>) -> Seq<(u32, Seq<char>, Edge)> {
    edges.map_values(|edge: BarrierEdge| (edge.id, edge.screen_id@, edge.edge))
}

impl View for BarrierPlan {
    type V = BarrierPlanView;

    open spec fn view(&self) -> BarrierPlanView {
        BarrierPlanView {
            barriers: self.barriers@,
            edges: edge_views(self.edges@),
            blocked: texts(self.blocked@),
        }
    }
}

/// Whether a list of barriers covers a segment.
pub open spec fn covers(barriers: Seq<BarrierSpec>, at: (int, int, int, int)) -> bool {
    exists|i: int| 0 <= i < barriers.len() && segment_of(#[trigger] barriers[i]) == at
}

/// A plan with one more target: several can share an edge, which is armed and
/// reported once.
pub open spec fn with_target(
    plan: BarrierPlanView,
    target: TargetView,
    local_screens: Seq<Screen>,
) -> BarrierPlanView {
    match first(local_screens, bordering(target.local_screen, target.edge)) {
        Some(blocker) => {
            let note = note_on(target.local_screen, target.edge, blocker);
            if plan.blocked.contains(note) {
                plan
            } else {
                BarrierPlanView { blocked: plan.blocked.push(note), ..plan }
            }
        },
        None => {
            let at = segment(target.local_screen.rect(), target.edge);
            let id = plan.barriers.len() + 1;
            if covers(plan.barriers, at) {
                plan
            } else {
                BarrierPlanView {
                    barriers: plan.barriers.push(barrier_on(id, at)),
                    edges: plan.edges.push(
                        (id as u32, target.layout_local_screen.id@, target.edge),
                    ),
                    ..plan
                }
            }
        },
    }
}

/// The plan for the first `n` targets.
pub open spec fn planned(targets: Seq<TargetView>, local_screens: Seq<Screen>, n: nat) -> BarrierPlanView
    decreases n,
{
    if n == 0 {
        BarrierPlanView { barriers: Seq::empty(), edges: Seq::empty(), blocked: Seq::empty() }
    } else {
        with_target(
            planned(targets, local_screens, (n - 1) as nat),
            targets[n - 1],
            local_screens,
        )
    }
}

fn is_covered(barriers: &Vec<BarrierSpec>, x1: i64, y1: i64, x2: i64, y2: i64) -> (r: bool)
    ensures
        r == covers(barriers@, (x1 as int, y1 as int, x2 as int, y2 as int)),
{
    let mut i: usize = 0;
    while i < barriers.len()
        invariant
            i <= barriers.len(),
            forall|j: int|
                0 <= j < i ==> segment_of(#[trigger] barriers@[j]) != (
                    x1 as int,
                    y1 as int,
                    x2 as int,
                    y2 as int,
                ),
        decreases barriers.len() - i,
    {
        let barrier = barriers[i];
        if barrier.x1 as i64 == x1 && barrier.y1 as i64 == y1 && barrier.x2 as i64 == x2
            && barrier.y2 as i64 == y2 {
            assert(segment_of(barriers@[i as int]) == (
                x1 as int,
                y1 as int,
                x2 as int,
                y2 as int,
            ));
            return true;
        }
        i = i + 1;
    }
    false
}

fn holds_text(list: &Vec<String>, text: &str) -> (r: bool)
    ensures
        r == texts(list@).contains(text@),
{
    let mut i: usize = 0;
    while i < list.len()
        invariant
            i <= list.len(),
            forall|j: int| 0 <= j < i ==> texts(list@)[j] != text@,
        decreases list.len() - i,
    {
        if same(list[i].as_str(), text) {
            assert(texts(list@)[i as int] == text@);
            return true;
        }
        i = i + 1;
    }
    false
}

fn add_target(plan: &mut BarrierPlan, target: &InputTarget, local_screens: &Vec<Screen>)
    requires
        edges_fit(target.local_screen.rect()),
        old(plan).barriers.len() < u32::MAX,
    ensures
        final(plan)@ == with_target(old(plan)@, target@, local_screens@),
        final(plan).barriers.len() <= old(plan).barriers.len() + 1,
{
    let screen = &target.local_screen;
    match linux_edge_blocked_by(screen, target.edge, local_screens) {
        Some(blocker) => {
            let note = blocked_note(screen, target.edge, blocker);
            if !holds_text(&plan.blocked, note.as_str()) {
                plan.blocked.push(note);
            }
            assert(texts(plan.blocked@) =~= with_target(
                old(plan)@,
                target@,
                local_screens@,
            ).blocked);
        },
        None => {
            let (x1, y1, x2, y2): (i64, i64, i64, i64) = match target.edge {
                Edge::Left => (
                    screen.x as i64,
                    screen.y as i64,
                    screen.x as i64,
                    screen.bottom_edge() - 1,
                ),
                Edge::Right => (
                    screen.right_edge(),
                    screen.y as i64,
                    screen.right_edge(),
                    screen.bottom_edge() - 1,
                ),
                Edge::Top => (
                    screen.x as i64,
                    screen.y as i64,
                    screen.right_edge() - 1,
                    screen.y as i64,
                ),
                Edge::Bottom => (
                    screen.x as i64,
                    screen.bottom_edge(),
                    screen.right_edge() - 1,
                    screen.bottom_edge(),
                ),
            };
            if is_covered(&plan.barriers, x1, y1, x2, y2) {
                return;
            }
            let id: u32 = (plan.barriers.len() + 1) as u32;
            plan.barriers.push(
                BarrierSpec { id, x1: x1 as i32, y1: y1 as i32, x2: x2 as i32, y2: y2 as i32 },
            );
            plan.edges.push(
                BarrierEdge {
                    id,
                    screen_id: target.layout_local_screen.id.clone(),
                    edge: target.edge,
                },
            );
            assert(edge_views(plan.edges@) =~= with_target(
                old(plan)@,
                target@,
                local_screens@,
            ).edges);
        },
    }
}

/// Whether the edges of all local screens of the targets are 32-bit coordinates.
pub fn all_edges_fit(targets: &Vec<InputTarget>) -> (r: bool)
    ensures
        r == forall|i: int|
            0 <= i < targets.len() ==> edges_fit((#[trigger] targets@[i]).local_screen.rect()),
{
    let mut i: usize = 0;
    while i < targets.len()
        invariant
            i <= targets.len(),
            forall|j: int|
                0 <= j < i ==> edges_fit((#[trigger] targets@[j]).local_screen.rect()),
        decreases targets.len() - i,
    {
        let screen = &targets[i].local_screen;
        let right: i64 = screen.right_edge();
        let bottom: i64 = screen.bottom_edge();
        if !fits(right - 1) || !fits(right) || !fits(bottom - 1) || !fits(bottom) {
            assert(!edges_fit(targets@[i as int].local_screen.rect()));
            return false;
        }
        i = i + 1;
    }
    true
}

fn fits(coordinate: i64) -> (r: bool)
    ensures
        r == (i32::MIN <= coordinate <= i32::MAX),
{
    i32::MIN as i64 <= coordinate && coordinate <= i32::MAX as i64
}

/// Decides which barriers to arm for a list of targets.
pub fn plan_barriers(targets: &Vec<InputTarget>, local_screens: &Vec<Screen>) -> (r: BarrierPlan)
    requires
        targets.len() < u32::MAX,
        forall|i: int|
            0 <= i < targets.len() ==> edges_fit((#[trigger] targets@[i]).local_screen.rect()),
    ensures
        r@ == planned(target_views(targets@), local_screens@, targets@.len()),
{
    let mut plan = BarrierPlan {
        barriers: Vec::new(),
        edges: Vec::new(),
        blocked: Vec::new(),
    };
    assert(plan@.barriers =~= Seq::<BarrierSpec>::empty());
    assert(plan@.edges =~= Seq::<(u32, Seq<char>, Edge)>::empty());
    assert(plan@.blocked =~= Seq::<Seq<char>>::empty());
    let mut i: usize = 0;
    while i < targets.len()
        invariant
            i <= targets.len() < u32::MAX,
            plan.barriers.len() <= i,
            forall|k: int|
                0 <= k < targets.len() ==> edges_fit((#[trigger] targets@[k]).local_screen.rect()),
            plan@ == planned(target_views(targets@), local_screens@, i as nat),
        decreases targets.len() - i,
    {
        assert(target_views(targets@)[i as int] == targets@[i as int]@);
        add_target(&mut plan, &targets[i], local_screens);
        i = i + 1;
    }
    plan
}

/// Barriers are numbered from one on, and the edge of each is known under its
/// number.
pub proof fn law_barriers_are_numbered(targets: Seq<TargetView>, local_screens: Seq<Screen>, n: nat)
    requires
        n < u32::MAX,
    ensures
        ({
            let plan = planned(targets, local_screens, n);
            &&& plan.barriers.len() == plan.edges.len() <= n
            &&& forall|i: int|
                0 <= i < plan.barriers.len() ==> (#[trigger] plan.barriers[i]).id == i + 1
                    && plan.edges[i].0 == i + 1
        }),
    decreases n,
{
    if n > 0 {
        law_barriers_are_numbered(targets, local_screens, (n - 1) as nat);
        let before = planned(targets, local_screens, (n - 1) as nat);
        let plan = planned(targets, local_screens, n);
        assert forall|i: int| 0 <= i < plan.barriers.len() implies (#[trigger] plan.barriers[i]).id
            == i + 1 && plan.edges[i].0 == i + 1 by {
            if i < before.barriers.len() {
                assert(plan.barriers[i] == before.barriers[i]);
                assert(plan.edges[i] == before.edges[i]);
            }
        }
    }
}

/// Every edge over which a target is reached is armed or reported, never
/// dropped in silence.
pub proof fn law_every_edge_is_armed_or_reported(
    targets: Seq<TargetView>,
    local_screens: Seq<Screen>,
    n: nat,
    i: int,
)
    requires
        0 <= i < n <= targets.len(),
        forall|k: int|
            0 <= k < targets.len() ==> edges_fit((#[trigger] targets[k]).local_screen.rect()),
    ensures
        ({
            let plan = planned(targets, local_screens, n);
            let screen = targets[i].local_screen;
            let edge = targets[i].edge;
            match first(local_screens, bordering(screen, edge)) {
                Some(blocker) => plan.blocked.contains(note_on(screen, edge, blocker)),
                None => covers(plan.barriers, segment(screen.rect(), edge)),
            }
        }),
    decreases n,
{
    let before = planned(targets, local_screens, (n - 1) as nat);
    let plan = planned(targets, local_screens, n);
    let screen = targets[i].local_screen;
    let edge = targets[i].edge;
    let at = segment(screen.rect(), edge);
    if i < n - 1 {
        law_every_edge_is_armed_or_reported(targets, local_screens, (n - 1) as nat, i);
        match first(local_screens, bordering(screen, edge)) {
            Some(blocker) => {
                let note = note_on(screen, edge, blocker);
                let k = choose|k: int| 0 <= k < before.blocked.len() && before.blocked[k] == note;
                assert(plan.blocked[k] == note);
            },
            None => {
                let k = choose|k: int|
                    0 <= k < before.barriers.len() && segment_of(#[trigger] before.barriers[k]) == at;
                assert(segment_of(plan.barriers[k]) == at);
            },
        }
    } else {
        match first(local_screens, bordering(screen, edge)) {
            Some(blocker) => {
                let note = note_on(screen, edge, blocker);
                if !before.blocked.contains(note) {
                    assert(plan.blocked[before.blocked.len() as int] == note);
                }
            },
            None => {
                if !covers(before.barriers, at) {
                    let k = before.barriers.len() as int;
                    assert(segment_of(plan.barriers[k]) == at);
                }
            },
        }
    }
}

// ---------------------------------------------------------------------------
// Following the captured pointer
// ---------------------------------------------------------------------------
/// What the capture remembers between events.
#[derive(Debug)]
pub struct LinuxCapture {
    pub active: Option<ActiveTarget>,
    pub remote_active: bool,
    pub clipboard_target: Option<ClipboardTarget>,
}

/// The same, as texts and numbers.
pub struct LinuxView {
    pub active: Option<ActiveView>,
    pub remote_active: bool,
    pub clipboard_target: Option<ClipboardTargetView>,
}

impl View for LinuxCapture {
    type V = LinuxView;

    open spec fn view(&self) -> LinuxView {
        LinuxView {
            active: match self.active {
                Some(active) => Some(active@),
                None => None,
            },
            remote_active: self.remote_active,
            clipboard_target: clipboard_view(self.clipboard_target),
        }
    }
}

/// What to do about a captured event: what to send, if anything, and whether to
/// go on. Whether the send succeeds does not matter.
#[derive(Debug)]
pub struct Step {
    pub send: Option<(InputTarget, InputEvent)>,
    pub reaction: Reaction,
}

/// The same, as texts and numbers.
pub struct StepView {
    pub send: Option<(TargetView, EventView)>,
    pub reaction: Reaction,
}

impl View for Step {
    type V = StepView;

    open spec fn view(&self) -> StepView {
        StepView {
            send: match self.send {
                Some((target, event)) => Some((target@, event@)),
                None => None,
            },
            reaction: self.reaction,
        }
    }
}

/// The test for the edge of a barrier.
pub open spec fn numbered(id: u32) -> spec_fn((u32, Seq<char>, Edge)) -> bool {
    |edge: (u32, Seq<char>, Edge)| edge.0 == id
}

/// The hand-over that a barrier stands for, with the cursor there.
pub open spec fn crossed(
    targets: Seq<TargetView>,
    edges: Seq<(u32, Seq<char>, Edge)>,
    barrier_id: u32,
    p: Point,
) -> Option<ActiveView> {
    match first(edges, numbered(barrier_id)) {
        Some((_, screen_id, edge)) => entry_from_barrier(targets, screen_id, edge, p),
        None => None,
    }
}

/// Whether an activation of a barrier can be handled: the sides and screens that
/// it goes between hold pixels.
pub open spec fn activation_fits(
    targets: Seq<TargetView>,
    edges: Seq<(u32, Seq<char>, Edge)>,
    barrier_id: u32,
    p: Point,
) -> bool {
    match first(edges, numbered(barrier_id)) {
        Some((_, screen_id, edge)) => entry_fits(targets, screen_id, edge, p),
        None => true,
    }
}

/// Keeping the capture and sending nothing.
pub open spec fn quiet() -> StepView {
    StepView { send: None, reaction: Reaction::Continue }
}

impl LinuxView {
    /// What always holds: while a screen is controlled, this machine counts as
    /// controlling another, and that screen holds pixels.
    pub open spec fn well_formed(self) -> bool {
        self.active matches Some(a) ==> self.remote_active && a.screen.has_area()
    }

    /// Sending an event to what is controlled, if there is such.
    pub open spec fn forwarding(self, event: EventView) -> StepView {
        StepView {
            send: match self.active {
                Some(a) => Some((a.target, event)),
                None => None,
            },
            reaction: Reaction::Continue,
        }
    }

    /// Nothing is controlled any more.
    pub open spec fn ended(self) -> LinuxView {
        LinuxView { active: None, remote_active: false, clipboard_target: None }
    }

    /// A captured event arrived.
    pub open spec fn handled(
        self,
        event: CaptureEvent,
        targets: Seq<TargetView>,
        edges: Seq<(u32, Seq<char>, Edge)>,
        layout: LayoutState,
    ) -> (LinuxView, StepView) {
        match event {
            CaptureEvent::Activated { barrier_id, x, y } => match crossed(
                targets,
                edges,
                barrier_id,
                Point { x, y },
            ) {
                None => (
                    LinuxView { active: None, ..self },
                    StepView { send: None, reaction: Reaction::Release { x, y } },
                ),
                Some(a) => {
                    let state = LinuxView {
                        active: Some(a),
                        remote_active: true,
                        clipboard_target: controlled_clipboard(
                            self.clipboard_target,
                            layout,
                            a.target.device_id,
                        ),
                    };
                    (state, state.forwarding(move_event(a)))
                },
            },
            CaptureEvent::Motion { dx, dy } => match self.active {
                None => (self, quiet()),
                Some(a) => {
                    let moved = shifted(a, Point { x: dx, y: dy });
                    match exit_over_link(
                        targets,
                        a.target.device_id,
                        a.screen_id,
                        a.screen,
                        moved.at,
                    ) {
                        Some((_, home)) => (
                            self.ended(),
                            StepView {
                                send: None,
                                reaction: Reaction::Release { x: home.x, y: home.y },
                            },
                        ),
                        None => {
                            let state = LinuxView { active: Some(held_on_screen(moved)), ..self };
                            (state, state.forwarding(move_event(held_on_screen(moved))))
                        },
                    }
                },
            },
            CaptureEvent::Button { button, down } => (
                self,
                self.forwarding(EventView::MouseButton { button: button.button(), down }),
            ),
            CaptureEvent::Scroll { delta_x, delta_y } => (
                self,
                self.forwarding(EventView::Scroll { delta_x, delta_y }),
            ),
            CaptureEvent::Key { vk, down } => (
                self,
                self.forwarding(EventView::Key { key_code: vk, down }),
            ),
            CaptureEvent::Deactivated => (self.ended(), quiet()),
        }
    }
}

impl LinuxCapture {
    /// A capture that controls nothing yet.
    pub fn new() -> (r: LinuxCapture)
        ensures
            r@ == (LinuxView { active: None, remote_active: false, clipboard_target: None }),
            r@.well_formed(),
    {
        LinuxCapture { active: None, remote_active: false, clipboard_target: None }
    }

    fn forward(&self, event: InputEvent) -> (r: Step)
        ensures
            r@ == self@.forwarding(event@),
    {
        let send = match self.active.as_ref() {
            Some(active) => Some((active.target.clone(), event)),
            None => None,
        };
        Step { send, reaction: Reaction::Continue }
    }

    fn activated(
        &mut self,
        barrier_id: u32,
        p: Point,
        targets: &Vec<InputTarget>,
        edges: &Vec<BarrierEdge>,
        layout: &LayoutState,
    ) -> (r: Step)
        requires
            activation_fits(target_views(targets@), edge_views(edges@), barrier_id, p),
        ensures
            (final(self)@, r@) == old(self)@.handled(
                CaptureEvent::Activated { barrier_id, x: p.x, y: p.y },
                target_views(targets@),
                edge_views(edges@),
                *layout,
            ),
            final(self)@.well_formed(),
    {
        match find_crossing(barrier_id, p, targets, edges) {
            None => {
                self.active = None;
                Step { send: None, reaction: Reaction::Release { x: p.x, y: p.y } }
            },
            Some(active) => {
                self.remote_active = true;
                set_control_clipboard_target(&mut self.clipboard_target, &active, layout);
                let event = remote_mouse_move(&active);
                self.active = Some(active);
                self.forward(event)
            },
        }
    }

    fn moved(&mut self, d: Point, targets: &Vec<InputTarget>) -> (r: Step)
        requires
            old(self)@.well_formed(),
        ensures
            forall|edges: Seq<(u32, Seq<char>, Edge)>, layout: LayoutState|
                (final(self)@, r@) == #[trigger] old(self)@.handled(
                    CaptureEvent::Motion { dx: d.x, dy: d.y },
                    target_views(targets@),
                    edges,
                    layout,
                ),
            final(self)@.well_formed(),
    {
        let mut active = match self.active.take() {
            Some(active) => active,
            None => {
                return Step { send: None, reaction: Reaction::Continue };
            },
        };
        let ghost a = active@;
        active.x = active.x.plus(d.x);
        active.y = active.y.plus(d.y);
        assert(active@ == shifted(a, d));
        match linux_exit_return(
            targets,
            active.target.device_id.as_str(),
            active.current_screen_id.as_str(),
            &active.current_screen,
            Point { x: active.x, y: active.y },
        ) {
            Some((_, home)) => {
                self.remote_active = false;
                self.clipboard_target = None;
                Step { send: None, reaction: Reaction::Release { x: home.x, y: home.y } }
            },
            None => {
                let kept = keep_on(&active.current_screen, Point { x: active.x, y: active.y });
                active.x = kept.x;
                active.y = kept.y;
                assert(active@ == held_on_screen(shifted(a, d)));
                let event = remote_mouse_move(&active);
                self.active = Some(active);
                self.forward(event)
            },
        }
    }

    /// Handles a captured event.
    pub fn handle(
        &mut self,
        event: CaptureEvent,
        targets: &Vec<InputTarget>,
        edges: &Vec<BarrierEdge>,
        layout: &LayoutState,
    ) -> (r: Step)
        requires
            old(self)@.well_formed(),
            event matches CaptureEvent::Activated { barrier_id, x, y } ==> activation_fits(
                target_views(targets@),
                edge_views(edges@),
                barrier_id,
                Point { x, y },
            ),
        ensures
            (final(self)@, r@) == old(self)@.handled(
                event,
                target_views(targets@),
                edge_views(edges@),
                *layout,
            ),
            final(self)@.well_formed(),
    {
        match event {
            CaptureEvent::Activated { barrier_id, x, y } => self.activated(
                barrier_id,
                Point { x, y },
                targets,
                edges,
                layout,
            ),
            CaptureEvent::Motion { dx, dy } => self.moved(Point { x: dx, y: dy }, targets),
            CaptureEvent::Button { button, down } => self.forward(
                InputEvent::MouseButton { button: button.mouse_button(), down },
            ),
            CaptureEvent::Scroll { delta_x, delta_y } => self.forward(
                InputEvent::Scroll { delta_x, delta_y },
            ),
            CaptureEvent::Key { vk, down } => self.forward(
                InputEvent::Key { key_code: vk, down },
            ),
            CaptureEvent::Deactivated => {
                self.stop();
                Step { send: None, reaction: Reaction::Continue }
            },
        }
    }

    /// Ends the capture.
    pub fn stop(&mut self)
        ensures
            final(self)@ == old(self)@.ended(),
    {
        self.active = None;
        self.remote_active = false;
        self.clipboard_target = None;
    }
}

/// How a capture starts.
#[derive(Debug)]
pub enum LinuxStart {
    /// The portal grants no session.
    Failed(NativeStageStatus),
    /// There is nothing to control. Barriers that are armed are to be disarmed.
    Idle(NativeStageStatus),
    /// These barriers are to be armed.
    Arm(BarrierPlan),
}

/// The same, as texts and numbers.
pub enum LinuxStartView {
    Failed((Seq<char>, Seq<char>)),
    Idle((Seq<char>, Seq<char>)),
    Arm(BarrierPlanView),
}

impl View for LinuxStart {
    type V = LinuxStartView;

    open spec fn view(&self) -> LinuxStartView {
        match self {
            LinuxStart::Failed(status) => LinuxStartView::Failed(said(*status)),
            LinuxStart::Idle(status) => LinuxStartView::Idle(said(*status)),
            LinuxStart::Arm(plan) => LinuxStartView::Arm(plan@),
        }
    }
}

/// The screens of this machine.
pub open spec fn own_screens(layout: LayoutState) -> Seq<Screen> {
    match local_device_of(layout) {
        Some(device) => device.screens@,
        None => seq![],
    }
}

/// How a capture starts. The session is opened even with nothing to arm: that
/// is what asks the user for permission.
pub open spec fn capture_begun(
    session: Result<(), String>,
    targets: Seq<TargetView>,
    native_layout: LayoutState,
) -> LinuxStartView {
    match session {
        Err(error) => LinuxStartView::Failed(("error"@, error@)),
        Ok(_) => if targets.len() == 0 {
            LinuxStartView::Idle(no_target(native_layout))
        } else {
            LinuxStartView::Arm(planned(targets, own_screens(native_layout), targets.len()))
        },
    }
}

impl LinuxCapture {
    /// Starts a capture. `session` is what the portal said to opening one.
    pub fn start_platform_capture(
        &mut self,
        session: Result<(), String>,
        targets: &Vec<InputTarget>,
        native_layout: &LayoutState,
    ) -> (r: LinuxStart)
        requires
            session is Ok ==> targets.len() < u32::MAX,
            session is Ok ==> forall|i: int|
                0 <= i < targets.len() ==> edges_fit((#[trigger] targets@[i]).local_screen.rect()),
        ensures
            r@ == capture_begun(session, target_views(targets@), *native_layout),
            final(self)@ == (if r@ is Arm {
                LinuxView { active: None, ..old(self)@ }
            } else {
                old(self)@.ended()
            }),
    {
        if let Err(error) = session {
            self.stop();
            return LinuxStart::Failed(
                NativeStageStatus { state: String::from_str("error"), detail: error },
            );
        }
        if targets.len() == 0 {
            self.stop();
            return LinuxStart::Idle(no_target_status(native_layout));
        }
        self.active = None;
        let plan = match local_device(native_layout) {
            Some(device) => plan_barriers(targets, &device.screens),
            None => {
                let screens: Vec<Screen> = Vec::new();
                assert(screens@ =~= seq![]);
                plan_barriers(targets, &screens)
            },
        };
        LinuxStart::Arm(plan)
    }
}

fn find_edge(edges: &Vec<BarrierEdge>, barrier_id: u32) -> (r: Option<usize>)
    ensures
        match r {
            Some(i) => i < edges.len() && first(edge_views(edges@), numbered(barrier_id)) == Some(
                edge_views(edges@)[i as int],
            ),
            None => first(edge_views(edges@), numbered(barrier_id)) is None,
        },
{
    let ghost views = edge_views(edges@);
    let ghost test = numbered(barrier_id);
    let mut i: usize = 0;
    assert(views.skip(0) =~= views);
    while i < edges.len()
        invariant
            i <= edges.len(),
            views == edge_views(edges@),
            test == numbered(barrier_id),
            first(views, test) == first(views.skip(i as int), test),
        decreases edges.len() - i,
    {
        proof {
            crate::seqs::lemma_first_step(views, test, i as int);
        }
        if edges[i].id == barrier_id {
            return Some(i);
        }
        i = i + 1;
    }
    None
}

fn find_crossing(
    barrier_id: u32,
    p: Point,
    targets: &Vec<InputTarget>,
    edges: &Vec<BarrierEdge>,
) -> (r: Option<ActiveTarget>)
    requires
        activation_fits(target_views(targets@), edge_views(edges@), barrier_id, p),
    ensures
        match r {
            Some(active) => crossed(target_views(targets@), edge_views(edges@), barrier_id, p)
                == Some(active@) && active@.screen.has_area(),
            None => crossed(target_views(targets@), edge_views(edges@), barrier_id, p) is None,
        },
{
    match find_edge(edges, barrier_id) {
        Some(i) => linux_entry_from_barrier(
            targets,
            edges[i].screen_id.as_str(),
            edges[i].edge,
            p,
        ),
        None => None,
    }
}

/// Whether a captured event can be handled.
pub fn event_fits(
    event: CaptureEvent,
    targets: &Vec<InputTarget>,
    edges: &Vec<BarrierEdge>,
) -> (r: bool)
    ensures
        r == (event matches CaptureEvent::Activated { barrier_id, x, y } ==> activation_fits(
            target_views(targets@),
            edge_views(edges@),
            barrier_id,
            Point { x, y },
        )),
{
    match event {
        CaptureEvent::Activated { barrier_id, x, y } => match find_edge(edges, barrier_id) {
            Some(i) => barrier_entry_fits(
                targets,
                edges[i].screen_id.as_str(),
                edges[i].edge,
                Point { x, y },
            ),
            None => true,
        },
        _ => true,
    }
}

/// A pointer that is captured is either followed to a remote screen or handed
/// back: an activation that matches no link releases it at once, and one that
/// does is sent on.
pub proof fn law_an_activation_is_never_stranded(
    v: LinuxView,
    barrier_id: u32,
    x: Double,
    y: Double,
    targets: Seq<TargetView>,
    edges: Seq<(u32, Seq<char>, Edge)>,
    layout: LayoutState,
)
    ensures
        ({
            let (state, step) = v.handled(
                CaptureEvent::Activated { barrier_id, x, y },
                targets,
                edges,
                layout,
            );
            &&& state.active is None ==> step.reaction == Reaction::Release { x, y }
            &&& state.active is Some ==> step.send is Some && state.remote_active
        }),
{
}

// ---------------------------------------------------------------------------
// What the user is told
// ---------------------------------------------------------------------------
/// A list of numbers in brackets.
pub open spec fn numbers_text(numbers: Seq<u32>) -> Seq<char> {
    "["@ + joined(numbers.map_values(|n: u32| decimal(n as nat)), ", "@) + "]"@
}

/// A zone in brackets.
pub open spec fn zone_text(zone: (i32, i32, u32, u32)) -> Seq<char> {
    "("@ + signed_decimal(zone.0 as int) + ", "@ + signed_decimal(zone.1 as int) + ", "@ + decimal(
        zone.2 as nat,
    ) + ", "@ + decimal(zone.3 as nat) + ")"@
}

/// A list of zones in brackets.
pub open spec fn zones_text(zones: Seq<(i32, i32, u32, u32)>) -> Seq<char> {
    "["@ + joined(zones.map_values(|zone: (i32, i32, u32, u32)| zone_text(zone)), ", "@) + "]"@
}

fn show_numbers(numbers: &Vec<u32>) -> (r: String)
    ensures
        r@ == numbers_text(numbers@),
{
    let ghost wanted = numbers@.map_values(|n: u32| decimal(n as nat));
    let mut parts: Vec<String> = Vec::new();
    let mut i: usize = 0;
    while i < numbers.len()
        invariant
            i <= numbers.len(),
            parts.len() == i,
            wanted == numbers@.map_values(|n: u32| decimal(n as nat)),
            forall|j: int| 0 <= j < i ==> (#[trigger] parts@[j])@ == wanted[j],
        decreases numbers.len() - i,
    {
        let mut text = String::new();
        push_decimal(&mut text, numbers[i] as u64);
        assert(text@ =~= decimal(numbers@[i as int] as nat));
        parts.push(text);
        i = i + 1;
    }
    assert(texts(parts@) =~= wanted);
    let mut out = String::from_str("[");
    out.append(join(&parts, ", ").as_str());
    out.append("]");
    out
}

fn show_zones(zones: &Vec<(i32, i32, u32, u32)>) -> (r: String)
    ensures
        r@ == zones_text(zones@),
{
    let ghost wanted = zones@.map_values(|zone: (i32, i32, u32, u32)| zone_text(zone));
    let mut parts: Vec<String> = Vec::new();
    let mut i: usize = 0;
    while i < zones.len()
        invariant
            i <= zones.len(),
            parts.len() == i,
            wanted == zones@.map_values(|zone: (i32, i32, u32, u32)| zone_text(zone)),
            forall|j: int| 0 <= j < i ==> (#[trigger] parts@[j])@ == wanted[j],
        decreases zones.len() - i,
    {
        let zone = zones[i];
        let mut text = String::from_str("(");
        push_signed_decimal(&mut text, zone.0);
        text.append(", ");
        push_signed_decimal(&mut text, zone.1);
        text.append(", ");
        push_decimal(&mut text, zone.2 as u64);
        text.append(", ");
        push_decimal(&mut text, zone.3 as u64);
        text.append(")");
        assert(text@ == zone_text(zones@[i as int]));
        parts.push(text);
        i = i + 1;
    }
    assert(texts(parts@) =~= wanted);
    let mut out = String::from_str("[");
    out.append(join(&parts, ", ").as_str());
    out.append("]");
    out
}

/// What is said of the edges that cannot be armed.
pub open spec fn blocked_text(blocked: Seq<Seq<char>>) -> Seq<char> {
    if blocked.len() == 0 {
        Seq::empty()
    } else {
        " KDE cannot guard these edges because another local screen borders them: "@ + joined(
            blocked,
            ", "@,
        ) + ". Cross to that device from an edge with nothing of yours next to it."@
    }
}

/// The status after arming the barriers of a number of targets.
pub open spec fn armed_status(
    outcome: Result<CaptureReady, String>,
    blocked: Seq<Seq<char>>,
    target_count: nat,
) -> (Seq<char>, Seq<char>) {
    match outcome {
        Err(error) => ("error"@, error@),
        Ok(ready) => {
            let note = blocked_text(blocked);
            if ready.accepted_barriers == 0 && blocked.len() > 0 {
                (
                    "ready"@,
                    "No screen edge could be armed."@ + note
                        + " Until then the mouse stays on this machine."@,
                )
            } else if ready.accepted_barriers == 0 {
                (
                    "error"@,
                    "The compositor rejected every screen-edge barrier. Requested "@ + decimal(
                        target_count,
                    ) + " for screen edges facing a remote device; portal zones are "@ + zones_text(
                        ready.zones@,
                    )
                        + ". Barriers must sit exactly on an output edge, so this usually means MyKVM's screen coordinates disagree with the compositor's."@
                        + note,
                )
            } else if ready.failed_barriers@.len() == 0 {
                (
                    "ready"@,
                    "Wayland capture ready via the InputCapture portal, "@ + decimal(
                        ready.accepted_barriers as nat,
                    ) + " screen edge(s) armed."@ + note,
                )
            } else {
                (
                    "ready"@,
                    "Wayland capture ready, "@ + decimal(ready.accepted_barriers as nat) + " of "@
                        + decimal(target_count)
                        + " screen edge(s) armed. The compositor rejected barrier ids "@
                        + numbers_text(ready.failed_barriers@)
                        + ", so those edges will not hand over."@ + note,
                )
            }
        },
    }
}

fn show_blocked(blocked: &Vec<String>) -> (r: String)
    ensures
        r@ == blocked_text(texts(blocked@)),
{
    if blocked.len() == 0 {
        let empty = String::new();
        assert(empty@ =~= Seq::<char>::empty());
        return empty;
    }
    let mut out = String::from_str(
        " KDE cannot guard these edges because another local screen borders them: ",
    );
    out.append(join(blocked, ", ").as_str());
    out.append(". Cross to that device from an edge with nothing of yours next to it.");
    out
}

pub fn linux_capture_status(
    outcome: &Result<CaptureReady, String>,
    blocked: &Vec<String>,
    target_count: usize,
) -> (r: NativeStageStatus)
    ensures
        (r.state@, r.detail@) == armed_status(*outcome, texts(blocked@), target_count as nat),
{
    let ready = match outcome {
        Err(error) => {
            return NativeStageStatus {
                state: String::from_str("error"),
                detail: error.clone(),
            };
        },
        Ok(ready) => ready,
    };
    let note = show_blocked(blocked);
    if ready.accepted_barriers == 0 && blocked.len() > 0 {
        let mut detail = String::from_str("No screen edge could be armed.");
        detail.append(note.as_str());
        detail.append(" Until then the mouse stays on this machine.");
        NativeStageStatus { state: String::from_str("ready"), detail }
    } else if ready.accepted_barriers == 0 {
        let mut detail = String::from_str(
            "The compositor rejected every screen-edge barrier. Requested ",
        );
        push_decimal(&mut detail, target_count as u64);
        detail.append(" for screen edges facing a remote device; portal zones are ");
        detail.append(show_zones(&ready.zones).as_str());
        detail.append(
            ". Barriers must sit exactly on an output edge, so this usually means MyKVM's screen coordinates disagree with the compositor's.",
        );
        detail.append(note.as_str());
        NativeStageStatus { state: String::from_str("error"), detail }
    } else if ready.failed_barriers.len() == 0 {
        let mut detail = String::from_str("Wayland capture ready via the InputCapture portal, ");
        push_decimal(&mut detail, ready.accepted_barriers as u64);
        detail.append(" screen edge(s) armed.");
        detail.append(note.as_str());
        NativeStageStatus { state: String::from_str("ready"), detail }
    } else {
        let mut detail = String::from_str("Wayland capture ready, ");
        push_decimal(&mut detail, ready.accepted_barriers as u64);
        detail.append(" of ");
        push_decimal(&mut detail, target_count as u64);
        detail.append(" screen edge(s) armed. The compositor rejected barrier ids ");
        detail.append(show_numbers(&ready.failed_barriers).as_str());
        detail.append(", so those edges will not hand over.");
        detail.append(note.as_str());
        NativeStageStatus { state: String::from_str("ready"), detail }
    }
}

} // verus!
