use vstd::prelude::*;

use crate::command::{modifier_bit, Command, MASK_BUTTON1, MASK_BUTTON3};
use crate::config::{HOT_KEY, NUM_DESKTOPS, WINDOW_BORDER_WIDTH};
use crate::geometry::{empty_rect, snap_target, Rect};
use crate::layout::{column_bounds, column_w, column_x, tile_rect, tiling_partition};
use vstd::set_lib::{lemma_int_range, lemma_len_subset, set_int_range};

verus! {

/// The identifier that names no window.
pub const NONE: u32 = 0;

/// Border color of the focused window.
pub const FOCUSED_BORDER: u32 = 0x00FF00;

/// Border color of a window without the focus.
pub const UNFOCUSED_BORDER: u32 = 0x000000;

/// One physical display output, as the window manager sees it.
#[derive(Clone, Copy, Debug, PartialEq, Eq, Structural)]
pub struct Monitor {
    /// the display server's identifier of the output
    pub crtc: u32,
    /// the region that the monitor shows, in absolute coordinates
    pub geometry: Rect,
    /// the desktop shown on this monitor
    pub desktop: usize,
    /// an invisible window that holds the input focus when the desktop has no window
    pub dummy_window: u32,
}

/// A virtual desktop.
#[derive(Clone, Copy, Debug, PartialEq, Eq, Structural)]
pub struct Desktop {
    /// the monitor that shows this desktop, if any
    pub monitor: Option<usize>,
}

/// A managed client window.
#[derive(Clone, Copy, Debug, PartialEq, Eq, Structural)]
pub struct Window {
    pub id: u32,
    /// the desktop the window belongs to
    pub desktop: usize,
    /// the client asked for the window to be shown
    pub mapped: bool,
    pub floating: bool,
    pub fullscreen: bool,
    /// the region of the window without its borders, relative to its monitor
    pub geometry: Rect,
    /// the saved region: a toggle of the floating flag trades it for `geometry`,
    /// so a window that is tiled and floated again comes back where it floated
    pub float_geometry: Rect,
    /// later tokens are stacked above earlier ones
    pub stacking_order: u64,
    /// the next unmap notification comes from the window manager itself: the
    /// display server gives no other way to tell it from the client's own
    pub ignore_unmap_notify: bool,
}

/// How a configure request places a window in the stack.
#[derive(Clone, Copy, Debug, PartialEq, Eq, Structural)]
pub enum Stack {
    /// on top of its siblings
    Above,
    /// just below the given sibling
    Below(u32),
    /// on top, if a sibling covers it
    TopIf,
}

/// A request for the display server, made by the engine and carried out by its driver.
#[derive(Debug, PartialEq, Eq)]
pub enum Action {
    /// move, resize or restack a window; absent parts are left as they are
    Configure { window: u32, geometry: Option<Rect>, border_width: Option<u32>, stack: Option<Stack> },
    MapWindow(u32),
    UnmapWindow(u32),
    DestroyWindow(u32),
    /// create an input-only 1x1 window at `(x, y)` to hold the focus of a monitor
    CreateSink { window: u32, x: i32, y: i32 },
    SetBorderColor { window: u32, pixel: u32 },
    /// give the input focus to a window, with no window to revert to
    SetInputFocus(u32),
    /// let the pointer go on: replay the grabbed event, or keep the pointer frozen
    /// and deliver the next event synchronously
    AllowEvents { sync: bool },
    /// grant a client's configure request for its window as it was asked
    PassConfigure(u32),
    /// record in the window's state property whether it is fullscreen
    SetFullscreenState { window: u32, fullscreen: bool },
    /// advertise on a new window which actions the window manager allows
    SetAllowedActions(u32),
    /// run a command line through the shell and wait for it
    Spawn(String),
}

/// An event from the display server, reduced to the values the engine reads.
#[derive(Debug, PartialEq, Eq)]
pub enum Event {
    KeyPress { state: u16, detail: u8 },
    /// `clicked` is the window under the pointer, if the press was not on the bare root
    ButtonPress { root_x: i16, root_y: i16, clicked: Option<u32>, detail: u8, state: u16 },
    MotionNotify { root_x: i16, root_y: i16, state: u16 },
    ButtonRelease { root_x: i16, root_y: i16, detail: u8 },
    /// a map request for a window the engine already manages
    MapRequest { window: u32 },
    /// a map request for a window seen for the first time, with its current
    /// geometry and whether its type is a dialog
    ManageRequest { window: u32, x: i16, y: i16, width: u16, height: u16, dialog: bool },
    UnmapNotify { window: u32 },
    DestroyNotify { window: u32 },
    /// an output was connected or disconnected
    OutputChange,
    /// a display output changed; `sink` is a fresh identifier for its focus
    /// window, used only if the output is new
    CrtcChange { crtc: u32, enabled: bool, x: i16, y: i16, width: u16, height: u16, sink: u32 },
    ConfigureRequest { window: u32, x: i16, y: i16, width: u16, height: u16 },
    /// a client asked to leave (`action` 0) or enter (`action` 1) fullscreen
    FullscreenRequest { window: u32, action: u32 },
}

/// What the command processor asks of the event loop.
#[derive(Clone, Copy, Debug, PartialEq, Eq, Structural)]
pub enum Outcome {
    Continue,
    /// stop the loop; with `restart`, the window manager asks to be launched again
    Interrupted { restart: bool },
}

/// The engine's state, as a value.
pub struct Model {
    pub keybind: Seq<(u16, u8, Command)>,
    pub windows: Seq<Window>,
    pub monitors: Seq<Monitor>,
    pub desktops: Seq<Desktop>,
    pub focus: u32,
    pub dnd_position: Option<(i32, i32)>,
    pub button_count: usize,
    pub preview_window: u32,
    pub preview_geometry: Rect,
    pub stacking_counter: u64,
}

/// The command bound to `(state, detail)`: the latest binding of that key wins.
pub open spec fn binding(kb: Seq<(u16, u8, Command)>, state: u16, detail: u8) -> Option<Command>
    decreases kb.len(),
{
    if kb.len() == 0 {
        None
    } else if kb.last().0 == state && kb.last().1 == detail {
        Some(kb.last().2)
    } else {
        binding(kb.drop_last(), state, detail)
    }
}

/// A window that the layout tiles on desktop `d`.
pub open spec fn is_tiled(w: Window, d: usize) -> bool {
    w.desktop == d && w.mapped && !w.floating && !w.fullscreen
}

/// A window shown on desktop `d`.
pub open spec fn is_mapped_on(w: Window, d: usize) -> bool {
    w.desktop == d && w.mapped
}

/// Number of windows tiled on desktop `d`.
pub open spec fn count_tiled(ws: Seq<Window>, d: usize) -> nat
    decreases ws.len(),
{
    if ws.len() == 0 {
        0
    } else {
        count_tiled(ws.drop_last(), d) + if is_tiled(ws.last(), d) {
            1nat
        } else {
            0nat
        }
    }
}

/// The identifiers of the windows shown on desktop `d`, in table order.
pub open spec fn mapped_ids(ws: Seq<Window>, d: usize) -> Seq<u32>
    decreases ws.len(),
{
    if ws.len() == 0 {
        seq![]
    } else if is_mapped_on(ws.last(), d) {
        mapped_ids(ws.drop_last(), d).push(ws.last().id)
    } else {
        mapped_ids(ws.drop_last(), d)
    }
}

/// The window that the tiling layout gives to `w`, the `i`-th of `ws`, when
/// desktop `d` is shown on a monitor of region `mg`.
pub open spec fn laid_out(ws: Seq<Window>, i: int, d: usize, mg: Rect) -> Window {
    if is_tiled(ws[i], d) {
        Window {
            geometry: tile_rect(
                mg.w as int,
                mg.h as int,
                count_tiled(ws, d) as int,
                count_tiled(ws.take(i), d) as int,
            ),
            ..ws[i]
        }
    } else {
        ws[i]
    }
}

/// The window table after a relayout of desktop `d` on a monitor of region `mg`:
/// the tiled windows take their columns in table order, the others keep their geometry.
pub open spec fn relayout(ws: Seq<Window>, d: usize, mg: Rect) -> Seq<Window> {
    Seq::new(ws.len(), |i: int| laid_out(ws, i, d, mg))
}

/// The first window shown on desktop `d`, or `fallback` if none is.
pub open spec fn first_or(ws: Seq<Window>, d: usize, fallback: u32) -> u32 {
    let ids = mapped_ids(ws, d);
    if ids.len() > 0 {
        ids[0]
    } else {
        fallback
    }
}

/// The window after `id` in the cyclic order `ids`, or `fallback` where `id` is not in it.
pub open spec fn next_in_cycle(ids: Seq<u32>, id: u32, fallback: u32) -> u32 {
    if exists|k: int| 0 <= k < ids.len() && ids[k] == id {
        let k = choose|k: int| 0 <= k < ids.len() && ids[k] == id && forall|j: int| 0 <= j < k ==> ids[j] != id;
        ids[(k + 1) % (ids.len() as int)]
    } else {
        fallback
    }
}

/// The table with every window shown on desktop `d` marked as hidden by the
/// window manager, so that the coming unmap notification is ignored.
pub open spec fn hide_desktop(ws: Seq<Window>, d: usize) -> Seq<Window> {
    Seq::new(
        ws.len(),
        |i: int|
            if is_mapped_on(ws[i], d) {
                Window { ignore_unmap_notify: true, ..ws[i] }
            } else {
                ws[i]
            },
    )
}

/// How a queue of commands ends the loop: at its first `Exit` or `Restart`, if any.
pub open spec fn first_interrupt(q: Seq<Command>) -> Outcome
    decreases q.len(),
{
    if q.len() == 0 {
        Outcome::Continue
    } else {
        match q[0] {
            Command::Exit => Outcome::Interrupted { restart: false },
            Command::Restart => Outcome::Interrupted { restart: true },
            _ => first_interrupt(q.drop_first()),
        }
    }
}

/// `a + d`, held to the range of `i32`.
pub open spec fn clamp_add(a: int, d: int) -> i32 {
    if a + d > i32::MAX {
        i32::MAX
    } else if a + d < i32::MIN {
        i32::MIN
    } else {
        (a + d) as i32
    }
}

/// A window region after the pointer moved by `(dx, dy)`: moved with the
/// primary button held, resized with the secondary one.
pub open spec fn drag_geometry(g: Rect, dx: int, dy: int, state: u16) -> Rect {
    if state & MASK_BUTTON1 != 0 {
        Rect { x: clamp_add(g.x as int, dx), y: clamp_add(g.y as int, dy), ..g }
    } else if state & MASK_BUTTON3 != 0 {
        Rect { w: clamp_add(g.w as int, dx), h: clamp_add(g.h as int, dy), ..g }
    } else {
        g
    }
}

/// The request that places a tiled window `w` of a monitor of region `mg`.
pub open spec fn tile_config(w: Window, mg: Rect) -> Action {
    Action::Configure {
        window: w.id,
        geometry: Some(
            Rect { x: (mg.x + w.geometry.x) as i32, y: (mg.y + w.geometry.y) as i32, w: w.geometry.w, h: w.geometry.h },
        ),
        border_width: Some(WINDOW_BORDER_WIDTH),
        stack: Some(Stack::Above),
    }
}

/// The request that places a floating window `w` of a monitor of region `mg`
/// on top, where it stands.
pub open spec fn float_config(w: Window, mg: Rect) -> Action {
    Action::Configure {
        window: w.id,
        geometry: Some(
            Rect {
                x: clamp_add(mg.x as int, w.geometry.x as int),
                y: clamp_add(mg.y as int, w.geometry.y as int),
                w: w.geometry.w,
                h: w.geometry.h,
            },
        ),
        border_width: Some(WINDOW_BORDER_WIDTH),
        stack: Some(Stack::Above),
    }
}

/// The request that makes the window `w` cover the monitor region `mg`, on top and without border.
pub open spec fn full_config(w: Window, mg: Rect) -> Action {
    Action::Configure { window: w.id, geometry: Some(mg), border_width: Some(0), stack: Some(Stack::Above) }
}

/// The requests that place the tiled windows of desktop `d`, in table order.
pub open spec fn tile_configs(ws: Seq<Window>, d: usize, mg: Rect) -> Seq<Action>
    decreases ws.len(),
{
    if ws.len() == 0 {
        seq![]
    } else if is_tiled(ws.last(), d) {
        tile_configs(ws.drop_last(), d, mg).push(tile_config(ws.last(), mg))
    } else {
        tile_configs(ws.drop_last(), d, mg)
    }
}

/// A window shown on desktop `d` that is stacked by its token: a fullscreen
/// one where `full`, else a floating one that is not fullscreen.
pub open spec fn is_stacked(w: Window, d: usize, full: bool) -> bool {
    is_mapped_on(w, d) && if full {
        w.fullscreen
    } else {
        w.floating && !w.fullscreen
    }
}

/// The stacked windows of desktop `d` with their tokens, in table order.
pub open spec fn stack_entries(ws: Seq<Window>, d: usize, full: bool) -> Seq<(u64, Window)>
    decreases ws.len(),
{
    if ws.len() == 0 {
        seq![]
    } else if is_stacked(ws.last(), d, full) {
        stack_entries(ws.drop_last(), d, full).push((ws.last().stacking_order, ws.last()))
    } else {
        stack_entries(ws.drop_last(), d, full)
    }
}

/// Where an entry with token `k` joins the sorted entries `s`: after every
/// entry whose token is not larger.
pub open spec fn insert_pos(s: Seq<(u64, Window)>, k: u64) -> int
    decreases s.len(),
{
    if s.len() == 0 {
        0
    } else if s[0].0 > k {
        0
    } else {
        1 + insert_pos(s.drop_first(), k)
    }
}

/// The entries sorted by token, those with equal tokens in their given order.
pub open spec fn sort_stacking(p: Seq<(u64, Window)>) -> Seq<(u64, Window)>
    decreases p.len(),
{
    if p.len() == 0 {
        seq![]
    } else {
        let s = sort_stacking(p.drop_last());
        s.insert(insert_pos(s, p.last().0), p.last())
    }
}

/// The requests of a layout of desktop `d`, whose windows are `ws`, on a
/// monitor of region `mg`: the tiled windows in table order, then the floating
/// and then the fullscreen ones from the lowest token up, and last the preview
/// window raised above them all.
pub open spec fn layout_actions(ws: Seq<Window>, d: usize, mg: Rect, preview: u32) -> Seq<Action> {
    tile_configs(ws, d, mg) + sort_stacking(stack_entries(ws, d, false)).map_values(
        |e: (u64, Window)| float_config(e.1, mg),
    ) + sort_stacking(stack_entries(ws, d, true)).map_values(|e: (u64, Window)| full_config(e.1, mg))
        + seq![Action::Configure { window: preview, geometry: None, border_width: None, stack: Some(Stack::Above) }]
}

/// `insert_pos` is the first position whose token is larger than `k`.
pub proof fn lemma_insert_pos(s: Seq<(u64, Window)>, k: u64, p: int)
    requires
        0 <= p <= s.len(),
        forall|a: int| 0 <= a < p ==> s[a].0 <= k,
        p == s.len() || s[p].0 > k,
    ensures
        insert_pos(s, k) == p,
    decreases p,
{
    reveal(Model::ids_apart);
    reveal(Model::tokens_ordered);
    if p > 0 {
        let t = s.drop_first();
        assert forall|a: int| 0 <= a < p - 1 implies t[a].0 <= k by {
            assert(t[a] == s[a + 1]);
        }
        if p < s.len() {
            assert(t[p - 1] == s[p]);
        }
        lemma_insert_pos(t, k, p - 1);
    }
}

/// Requests to unmap each of `ids`, in order.
pub open spec fn unmap_requests(ids: Seq<u32>) -> Seq<Action> {
    ids.map_values(|id: u32| Action::UnmapWindow(id))
}

/// Requests to map each of `ids`, in order.
pub open spec fn map_requests(ids: Seq<u32>) -> Seq<Action> {
    ids.map_values(|id: u32| Action::MapWindow(id))
}

/// The stacking token after `c`; the counter stops at its largest value.
pub open spec fn next_token(c: u64) -> u64 {
    if c < u64::MAX {
        (c + 1) as u64
    } else {
        c
    }
}

/// `a` and `b` are the same window, but for their stacking tokens.
pub open spec fn same_but_stacking(a: Window, b: Window) -> bool {
    a == Window { stacking_order: a.stacking_order, ..b }
}

/// The requests that move the focus from `old` to `new`: recolor the borders
/// of the two windows among them that are managed, then hand over the input focus.
pub open spec fn focus_actions(s: Model, new: u32) -> Seq<Action> {
    if s.focus == new {
        seq![]
    } else {
        (if s.has_window(s.focus) {
            seq![Action::SetBorderColor { window: s.focus, pixel: UNFOCUSED_BORDER }]
        } else {
            seq![]
        }) + (if s.has_window(new) {
            seq![Action::SetBorderColor { window: new, pixel: FOCUSED_BORDER }]
        } else {
            seq![]
        }) + seq![Action::SetInputFocus(new)]
    }
}

impl Model {
    /// A window with identifier `id` is in the table.
    pub open spec fn has_window(self, id: u32) -> bool {
        exists|i: int| 0 <= i < self.windows.len() && self.windows[i].id == id
    }

    /// `id` is the focus window of a monitor.
    pub open spec fn is_sink(self, id: u32) -> bool {
        exists|m: int| 0 <= m < self.monitors.len() && self.monitors[m].dummy_window == id
    }

    /// `id` may hold the input focus: a managed window, a monitor's focus window, or none.
    pub open spec fn focusable(self, id: u32) -> bool {
        id == NONE || self.has_window(id) || self.is_sink(id)
    }

    /// Every shown desktop is shown on exactly one monitor, and every monitor
    /// shows exactly one desktop.
    pub open spec fn bound_both_ways(self) -> bool {
        &&& forall|m: int|
            0 <= m < self.monitors.len() ==> {
                &&& #[trigger] self.monitors[m].desktop < self.desktops.len()
                &&& self.desktops[self.monitors[m].desktop as int].monitor is Some
                &&& self.desktops[self.monitors[m].desktop as int].monitor.unwrap() as int == m
            }
        &&& forall|d: int|
            0 <= d < self.desktops.len() ==> match #[trigger] self.desktops[d].monitor {
                Some(m) => m < self.monitors.len() && self.monitors[m as int].desktop == d,
                None => true,
            }
    }

    /// No two windows share an identifier.
    pub open spec fn ids_unique(self) -> bool {
        forall|i: int, j: int|
            0 <= i < self.windows.len() && 0 <= j < self.windows.len() && i != j
                ==> #[trigger] self.windows[i].id != #[trigger] self.windows[j].id
    }

    /// `sink` can name the focus window of a new monitor: it is not `NONE`,
    /// nor a managed window, nor the focus window of a monitor.
    pub open spec fn fresh_sink(self, sink: u32) -> bool {
        sink != NONE && !self.has_window(sink) && !self.is_sink(sink)
    }

    /// Identifiers are kept apart: no window and no focus window is `NONE`,
    /// no focus window is a managed window, and no two monitors share a focus
    /// window or an output.
    #[verifier::opaque]
    pub open spec fn ids_apart(self) -> bool {
        &&& forall|i: int| 0 <= i < self.windows.len() ==> (#[trigger] self.windows[i]).id != NONE
        &&& forall|m: int| 0 <= m < self.monitors.len() ==> (#[trigger] self.monitors[m]).dummy_window != NONE
        &&& forall|i: int, m: int|
            0 <= i < self.windows.len() && 0 <= m < self.monitors.len() ==> #[trigger] self.windows[i].id
                != #[trigger] self.monitors[m].dummy_window
        &&& forall|a: int, b: int|
            0 <= a < self.monitors.len() && 0 <= b < self.monitors.len() && a != b ==> #[trigger] self.monitors[a].dummy_window
                != #[trigger] self.monitors[b].dummy_window
        &&& forall|a: int, b: int|
            0 <= a < self.monitors.len() && 0 <= b < self.monitors.len() && a != b ==> #[trigger] self.monitors[a].crtc
                != #[trigger] self.monitors[b].crtc
    }

    /// An output change that adds a monitor carries a fresh focus window.
    pub open spec fn fresh_output(self, e: Event) -> bool {
        match e {
            Event::CrtcChange { crtc, enabled, sink, .. } => enabled && self.output_monitor(crtc) is None
                ==> self.fresh_sink(sink),
            _ => true,
        }
    }

    /// A window `id` seen for the first time can be managed: a monitor
    /// exists, `id` names neither nothing nor a monitor's focus window, and a
    /// stacking token is left for it.
    pub open spec fn can_manage(self, id: u32) -> bool {
        self.monitors.len() > 0 && id != NONE && !self.is_sink(id) && self.stacking_counter < u64::MAX
    }

    /// The engine's invariant: every state between two reactions satisfies it.
    /// Besides the structural invariant, the focus is never empty while a
    /// monitor exists.
    pub open spec fn wf(self) -> bool {
        &&& self.inv()
        &&& self.monitors.len() > 0 ==> self.focus != NONE
    }

    /// Stacking tokens are all distinct and below the counter, so the token
    /// that the counter hands out next is above every other.
    #[verifier::opaque]
    pub open spec fn tokens_ordered(self) -> bool {
        &&& forall|i: int| 0 <= i < self.windows.len() ==> (#[trigger] self.windows[i]).stacking_order < self.stacking_counter
        &&& forall|a: int, b: int|
            0 <= a < self.windows.len() && 0 <= b < self.windows.len() && a != b ==> #[trigger] self.windows[a].stacking_order
                != #[trigger] self.windows[b].stacking_order
    }

    /// The structural invariant, which also holds inside a reaction.
    pub open spec fn inv(self) -> bool {
        &&& self.ids_apart()
        &&& self.tokens_ordered()
        &&& self.desktops.len() == NUM_DESKTOPS
        &&& self.bound_both_ways()
        &&& forall|m: int|
            0 <= m < self.monitors.len() ==> (#[trigger] self.monitors[m]).geometry.is_screen_rect()
        &&& forall|i: int|
            0 <= i < self.windows.len() ==> (#[trigger] self.windows[i]).desktop < NUM_DESKTOPS
        &&& self.ids_unique()
        &&& self.focusable(self.focus)
        &&& self.button_count > 0 ==> self.dnd_position is Some
        &&& forall|i: int|
            0 <= i < self.keybind.len() ==> (#[trigger] self.keybind[i]).2.fits_desktops(
                NUM_DESKTOPS as nat,
            )
    }

    /// Index of the window with identifier `id`.
    pub open spec fn window_index(self, id: u32) -> int {
        choose|i: int| 0 <= i < self.windows.len() && self.windows[i].id == id
    }

    /// The first monitor whose focus window is `id`.
    pub open spec fn sink_monitor(self, id: u32) -> int {
        choose|m: int|
            0 <= m < self.monitors.len() && self.monitors[m].dummy_window == id && forall|j: int|
                0 <= j < m ==> self.monitors[j].dummy_window != id
    }

    /// The monitor that holds the focus: the monitor of the focused window's
    /// desktop, or the monitor whose focus window is focused.
    pub open spec fn focused_monitor(self) -> Option<usize> {
        if self.has_window(self.focus) {
            self.desktops[self.windows[self.window_index(self.focus)].desktop as int].monitor
        } else if self.is_sink(self.focus) {
            Some(self.sink_monitor(self.focus) as usize)
        } else {
            None
        }
    }

    /// The state with the window table replaced.
    pub open spec fn with_windows(self, ws: Seq<Window>) -> Model {
        Model { windows: ws, ..self }
    }

    /// The state with the stacking counter replaced.
    pub open spec fn with_stacking(self, c: u64) -> Model {
        Model { stacking_counter: c, ..self }
    }

    /// The state with the focus moved to `f`.
    pub open spec fn with_focus(self, f: u32) -> Model {
        Model { focus: f, ..self }
    }

    /// The window table after a relayout of monitor `m`.
    pub open spec fn relayout_monitor(self, m: int) -> Seq<Window> {
        relayout(self.windows, self.monitors[m].desktop, self.monitors[m].geometry)
    }

    /// The focus target on monitor `m`: its desktop's first shown window, else its focus window.
    pub open spec fn fallback_focus(self, m: int) -> u32 {
        first_or(self.windows, self.monitors[m].desktop, self.monitors[m].dummy_window)
    }

    /// The state after the focused window's floating flag is flipped: the
    /// window trades its region for its saved one (a window that starts to
    /// float takes back the region it floated in), a window that starts to
    /// float is raised above the others, and the monitor that shows its
    /// desktop is laid out again.
    pub open spec fn toggled(self) -> Model {
        if self.has_window(self.focus) {
            let i = self.window_index(self.focus);
            let w = self.windows[i];
            let raise = !w.floating;
            let w2 = Window {
                floating: !w.floating,
                geometry: w.float_geometry,
                float_geometry: w.geometry,
                stacking_order: if raise && self.stacking_counter < u64::MAX { self.stacking_counter } else { w.stacking_order },
                ..w
            };
            let s1 = Model {
                windows: self.windows.update(i, w2),
                stacking_counter: if raise { next_token(self.stacking_counter) } else { self.stacking_counter },
                ..self
            };
            match self.desktops[w.desktop as int].monitor {
                Some(m) => s1.with_windows(s1.relayout_monitor(m as int)),
                None => s1,
            }
        } else {
            self
        }
    }

    /// The monitor after the focused one, cyclically; the first one if none has the focus.
    pub open spec fn next_monitor(self) -> int {
        match self.focused_monitor() {
            Some(m) => (m + 1) % (self.monitors.len() as int),
            None => 0,
        }
    }

    /// Where the focus goes when it cycles among the windows of the focused
    /// window's desktop, if it moves at all.
    pub open spec fn next_window_focus(self) -> Option<u32> {
        if self.has_window(self.focus) {
            let w = self.windows[self.window_index(self.focus)];
            let ids = mapped_ids(self.windows, w.desktop);
            if ids.len() > 1 {
                Some(next_in_cycle(ids, w.id, self.stay_or_sink(w.desktop, w.id)))
            } else {
                None
            }
        } else {
            None
        }
    }

    /// Where the focus goes from a window `id` of desktop `d` that is not
    /// shown: to the focus window of the monitor that shows `d`, else nowhere new.
    pub open spec fn stay_or_sink(self, d: usize, id: u32) -> u32 {
        match self.desktops[d as int].monitor {
            Some(m) => self.monitors[m as int].dummy_window,
            None => id,
        }
    }

    /// The monitor that commands act on: the focused one, else the first.
    pub open spec fn acting_monitor(self) -> int {
        match self.focused_monitor() {
            Some(m) => m as int,
            None => 0,
        }
    }

    /// The bindings after desktop `target`, shown on another monitor, trades
    /// places with the acting monitor's desktop.
    pub open spec fn swap_bound(self, target: usize) -> Model {
        let mb = self.acting_monitor();
        let db = self.monitors[mb].desktop;
        let ma = self.desktops[target as int].monitor.unwrap() as int;
        Model {
            monitors: self.monitors.update(ma, Monitor { desktop: db, ..self.monitors[ma] }).update(
                mb,
                Monitor { desktop: target, ..self.monitors[mb] },
            ),
            desktops: self.desktops.update(target as int, Desktop { monitor: Some(mb as usize) }).update(
                db as int,
                Desktop { monitor: Some(ma as usize) },
            ),
            ..self
        }
    }

    /// The state after hidden desktop `target` replaces the acting monitor's
    /// desktop, whose shown windows are hidden.
    pub open spec fn replace_bound(self, target: usize) -> Model {
        let mb = self.acting_monitor();
        let db = self.monitors[mb].desktop;
        Model {
            windows: hide_desktop(self.windows, db),
            monitors: self.monitors.update(mb, Monitor { desktop: target, ..self.monitors[mb] }),
            desktops: self.desktops.update(target as int, Desktop { monitor: Some(mb as usize) }).update(
                db as int,
                Desktop { monitor: None },
            ),
            ..self
        }
    }

    /// The state after desktop `target` is brought to the acting monitor. A
    /// desktop shown elsewhere trades places with the acting monitor's desktop,
    /// and both monitors are laid out again; a hidden one replaces it, whose
    /// shown windows are hidden. The focus goes to the first window shown on
    /// `target`, else to the monitor's focus window.
    pub open spec fn switched(self, target: usize) -> Model {
        let mb = self.acting_monitor();
        match self.desktops[target as int].monitor {
            Some(ma) => {
                let t = self.swap_bound(target);
                let t1 = t.with_windows(t.relayout_monitor(ma as int));
                let t2 = t1.with_windows(t1.relayout_monitor(mb));
                t2.with_focus(t2.fallback_focus(mb))
            },
            None => {
                if self.monitors.len() == 0 {
                    self
                } else {
                    let t = self.replace_bound(target);
                    let t1 = t.with_windows(t.relayout_monitor(mb));
                    t1.with_focus(t1.fallback_focus(mb))
                }
            },
        }
    }

    /// The state after the focused window is sent to desktop `target`. Where
    /// `target` is hidden the window is hidden too, and the focus goes to the
    /// first window shown on its old desktop, else to that monitor's focus
    /// window. Both monitors involved are laid out again. Nothing happens when
    /// no managed window, or one on a hidden desktop, has the focus.
    pub open spec fn moved(self, target: usize) -> Model {
        if self.has_window(self.focus) {
            let i = self.window_index(self.focus);
            let w = self.windows[i];
            match self.desktops[w.desktop as int].monitor {
                Some(om) => {
                    let om = om as int;
                    let nm = self.desktops[target as int].monitor;
                    let w1 = Window {
                        desktop: target,
                        ignore_unmap_notify: if nm is None { true } else { w.ignore_unmap_notify },
                        ..w
                    };
                    let ws1 = self.windows.update(i, w1);
                    let f = if nm is None {
                        first_or(ws1, w.desktop, self.monitors[om].dummy_window)
                    } else {
                        self.focus
                    };
                    let ws2 = relayout(ws1, self.monitors[om].desktop, self.monitors[om].geometry);
                    let ws3 = match nm {
                        Some(n) => relayout(ws2, self.monitors[n as int].desktop, self.monitors[n as int].geometry),
                        None => ws2,
                    };
                    Model { windows: ws3, focus: f, ..self }
                },
                None => self,
            }
        } else {
            self
        }
    }

    /// The state after one command has run. `Exit`, `Restart` and
    /// `SpawnProcess` leave the state as it is.
    #[verifier::opaque]
    pub open spec fn after_command(self, c: Command) -> Model {
        match c {
            Command::FocusNextMonitor => {
                if self.monitors.len() == 0 {
                    self
                } else {
                    self.with_focus(self.fallback_focus(self.next_monitor()))
                }
            },
            Command::FocusNextWindow => match self.next_window_focus() {
                Some(f) => self.with_focus(f),
                None => self,
            },
            Command::SwitchDesktop(d) => self.switched(d),
            Command::MoveWindow(d) => self.moved(d),
            Command::ToggleFloating => self.toggled(),
            _ => self,
        }
    }

    /// The requests made by one command.
    #[verifier::opaque]
    pub open spec fn command_requests(self, c: Command) -> Seq<Action> {
        match c {
            Command::SpawnProcess(line) => seq![Action::Spawn(line)],
            Command::FocusNextMonitor => {
                if self.monitors.len() == 0 {
                    seq![]
                } else {
                    focus_actions(self, self.fallback_focus(self.next_monitor()))
                }
            },
            Command::FocusNextWindow => match self.next_window_focus() {
                Some(f) => focus_actions(self, f),
                None => seq![],
            },
            Command::SwitchDesktop(d) => self.switch_requests(d),
            Command::MoveWindow(d) => self.move_requests(d),
            Command::ToggleFloating => match self.window_monitor(self.focus) {
                Some(m) => self.toggled().layout_of(m as int),
                None => seq![],
            },
            _ => seq![],
        }
    }

    /// The requests made by the commands of `q` run in order, up to the first
    /// `Exit` or `Restart`.
    pub open spec fn commands_requests(self, q: Seq<Command>) -> Seq<Action>
        decreases q.len(),
    {
        if q.len() == 0 {
            seq![]
        } else {
            match q[0] {
                Command::Exit => seq![],
                Command::Restart => seq![],
                _ => self.command_requests(q[0]) + self.after_command(q[0]).commands_requests(q.drop_first()),
            }
        }
    }

    /// The state after the commands of `q` have run in order, up to the first
    /// `Exit` or `Restart`.
    pub open spec fn after_commands(self, q: Seq<Command>) -> Model
        decreases q.len(),
    {
        if q.len() == 0 {
            self
        } else {
            match q[0] {
                Command::Exit => self,
                Command::Restart => self,
                _ => self.after_command(q[0]).after_commands(q.drop_first()),
            }
        }
    }

    /// The state after a map request for the managed window `id`: on a shown
    /// desktop the window is shown, raised, laid out and focused.
    pub open spec fn map_known(self, id: u32) -> Model {
        if self.has_window(id) {
            let i = self.window_index(id);
            let w = self.windows[i];
            match self.desktops[w.desktop as int].monitor {
                Some(m) => {
                    let w1 = Window {
                        mapped: true,
                        stacking_order: if self.stacking_counter < u64::MAX { self.stacking_counter } else { w.stacking_order },
                        ..w
                    };
                    let t = Model {
                        windows: self.windows.update(i, w1),
                        stacking_counter: next_token(self.stacking_counter),
                        ..self
                    };
                    t.with_windows(t.relayout_monitor(m as int)).with_focus(id)
                },
                None => self,
            }
        } else {
            self
        }
    }

    /// The window that a new client window becomes, placed on monitor `m`: its
    /// geometry made relative to the monitor, and a dialog floats centered.
    pub open spec fn new_window(self, m: int, id: u32, x: i16, y: i16, width: u16, height: u16, dialog: bool) -> Window {
        let mg = self.monitors[m].geometry;
        let g = Rect {
            x: if dialog { (mg.w / 2 - width as int / 2) as i32 } else { (x - mg.x) as i32 },
            y: if dialog { (mg.h / 2 - height as int / 2) as i32 } else { (y - mg.y) as i32 },
            w: width as i32,
            h: height as i32,
        };
        Window {
            id,
            desktop: self.monitors[m].desktop,
            mapped: true,
            floating: dialog,
            fullscreen: false,
            geometry: g,
            float_geometry: g,
            stacking_order: self.stacking_counter,
            ignore_unmap_notify: false,
        }
    }

    /// The state after a map request for a window seen for the first time: it
    /// joins the desktop of the acting monitor, which is laid out again, and
    /// takes the focus. A window that is already managed is mapped as such;
    /// one that cannot be managed (see `can_manage`) is left alone.
    pub open spec fn manage(self, id: u32, x: i16, y: i16, width: u16, height: u16, dialog: bool) -> Model {
        if self.has_window(id) {
            self.map_known(id)
        } else if !self.can_manage(id) {
            self
        } else {
            let m = self.acting_monitor();
            let t = Model {
                windows: self.windows.push(self.new_window(m, id, x, y, width, height, dialog)),
                stacking_counter: next_token(self.stacking_counter),
                ..self
            };
            t.with_windows(t.relayout_monitor(m)).with_focus(id)
        }
    }

    /// The state after an unmap notification for `id`. One that the window
    /// manager caused only clears the window's flag; one from the client, on
    /// a shown desktop, hides the window, moves the focus off it to the first
    /// window still shown there, else to the monitor's focus window, and lays
    /// the monitor out again.
    pub open spec fn unmapped(self, id: u32) -> Model {
        if self.has_window(id) {
            let i = self.window_index(id);
            let w = self.windows[i];
            if w.ignore_unmap_notify {
                self.with_windows(self.windows.update(i, Window { ignore_unmap_notify: false, ..w }))
            } else {
                match self.desktops[w.desktop as int].monitor {
                    Some(m) => {
                        let t = self.with_windows(self.windows.update(i, Window { mapped: false, ..w }));
                        let t1 = if self.focus == id { t.with_focus(t.fallback_focus(m as int)) } else { t };
                        t1.with_windows(t1.relayout_monitor(m as int))
                    },
                    None => self,
                }
            }
        } else {
            self
        }
    }

    /// The state after the window `id` is destroyed: it leaves the table and
    /// its monitor is laid out again. If it held the focus, the focus goes to
    /// the first window shown on the monitor of its desktop (the first monitor
    /// where that desktop is hidden), else to that monitor's focus window; with
    /// no monitor left, to nothing.
    pub open spec fn removed(self, id: u32) -> Model {
        if self.has_window(id) {
            let i = self.window_index(id);
            let w = self.windows[i];
            let t = self.with_windows(self.windows.remove(i));
            let t0 = if self.focus == id { t.with_focus(NONE) } else { t };
            let t1 = match self.desktops[w.desktop as int].monitor {
                Some(m) => t0.with_windows(t0.relayout_monitor(m as int)),
                None => t0,
            };
            if self.focus == id && t1.monitors.len() > 0 {
                t1.with_focus(t1.fallback_focus(self.home_monitor(w.desktop)))
            } else {
                t1
            }
        } else {
            self
        }
    }

    /// The monitor that shows desktop `d`, else the first one.
    pub open spec fn home_monitor(self, d: usize) -> int {
        match self.desktops[d as int].monitor {
            Some(m) => m as int,
            None => 0,
        }
    }

    /// The state after a configure request: a floating window takes the asked
    /// region, relative to its monitor (at the origin when its desktop is
    /// hidden); other windows keep theirs.
    pub open spec fn configured(self, id: u32, x: i16, y: i16, width: u16, height: u16) -> Model {
        if self.has_window(id) && self.windows[self.window_index(id)].floating {
            let i = self.window_index(id);
            let w = self.windows[i];
            let g = match self.desktops[w.desktop as int].monitor {
                Some(m) => Rect {
                    x: (x - self.monitors[m as int].geometry.x) as i32,
                    y: (y - self.monitors[m as int].geometry.y) as i32,
                    w: width as i32,
                    h: height as i32,
                },
                None => Rect { x: 0, y: 0, w: width as i32, h: height as i32 },
            };
            self.with_windows(self.windows.update(i, Window { geometry: g, ..w }))
        } else {
            self
        }
    }

    /// The state after a client asks for its window to leave (`action` 0) or
    /// enter (`action` 1) fullscreen; the window's monitor is laid out again.
    pub open spec fn fullscreen_set(self, id: u32, action: u32) -> Model {
        if self.has_window(id) && (action == 0 || action == 1) {
            let i = self.window_index(id);
            let w = self.windows[i];
            let t = self.with_windows(self.windows.update(i, Window { fullscreen: action == 1, ..w }));
            match self.desktops[w.desktop as int].monitor {
                Some(m) => t.with_windows(t.relayout_monitor(m as int)),
                None => t,
            }
        } else {
            self
        }
    }

    /// The first desktop that no monitor shows.
    pub open spec fn free_desktop(self) -> Option<int> {
        if exists|d: int| 0 <= d < self.desktops.len() && self.desktops[d].monitor is None {
            Some(
                choose|d: int|
                    0 <= d < self.desktops.len() && self.desktops[d].monitor is None && forall|e: int|
                        0 <= e < d ==> self.desktops[e].monitor is Some,
            )
        } else {
            None
        }
    }

    /// The first monitor of the display output `crtc`.
    pub open spec fn output_monitor(self, crtc: u32) -> Option<int> {
        if exists|m: int| 0 <= m < self.monitors.len() && self.monitors[m].crtc == crtc {
            Some(
                choose|m: int|
                    0 <= m < self.monitors.len() && self.monitors[m].crtc == crtc && forall|k: int|
                        0 <= k < m ==> self.monitors[k].crtc != crtc,
            )
        } else {
            None
        }
    }

    /// The state with a monitor for output `crtc` of region `g` added, showing
    /// desktop `d`, with `sink` as its focus window.
    pub open spec fn with_monitor(self, crtc: u32, g: Rect, d: usize, sink: u32) -> Model {
        Model {
            monitors: self.monitors.push(Monitor { crtc, geometry: g, desktop: d, dummy_window: sink }),
            desktops: self.desktops.update(d as int, Desktop { monitor: Some(self.monitors.len() as usize) }),
            ..self
        }
    }

    /// The state after an output is newly enabled: a monitor is bound to the
    /// first desktop that no monitor shows and laid out, and the focus goes to
    /// the first window shown there, else to the new focus window. With every
    /// desktop shown, nothing changes.
    pub open spec fn enabled(self, crtc: u32, g: Rect, sink: u32) -> Model {
        match self.free_desktop() {
            Some(d) => {
                let m = self.monitors.len() as int;
                let t = self.with_monitor(crtc, g, d as usize, sink);
                let t1 = t.with_windows(t.relayout_monitor(m));
                t1.with_focus(t1.fallback_focus(m))
            },
            None => self,
        }
    }

    /// The state after monitor `m` takes the region `g` and is laid out again.
    pub open spec fn reconfigured(self, m: int, g: Rect) -> Model {
        let t = Model { monitors: self.monitors.update(m, Monitor { geometry: g, ..self.monitors[m] }), ..self };
        t.with_windows(t.relayout_monitor(m))
    }

    /// Whether the focus is on monitor `m`: on a window shown on its
    /// desktop, or on its focus window.
    pub open spec fn focus_inside(self, m: int) -> bool {
        shown_on(self.windows, self.monitors[m].desktop, self.focus) || self.focus == self.monitors[m].dummy_window
    }

    /// The state after the output of monitor `m` is disabled: see `unbound`;
    /// a focus that was on the monitor then goes to the first remaining
    /// monitor, to the first window shown there, else to its focus window.
    pub open spec fn disabled(self, m: int) -> Model {
        let t = self.unbound(m);
        if self.focus_inside(m) && t.monitors.len() > 0 {
            t.with_focus(t.fallback_focus(0))
        } else {
            t
        }
    }

    /// The state after monitor `m` is released: the windows shown on its
    /// desktop are hidden, the focus is dropped if it was on the monitor, the
    /// desktop is unbound, and the last monitor takes the freed slot, its
    /// desktop bound to the new index.
    pub open spec fn unbound(self, m: int) -> Model {
        let d = self.monitors[m].desktop;
        let last = self.monitors.len() - 1;
        let f = if shown_on(self.windows, d, self.focus) || self.focus == self.monitors[m].dummy_window {
            NONE
        } else {
            self.focus
        };
        let mons = if m == last {
            self.monitors.drop_last()
        } else {
            self.monitors.update(m, self.monitors[last]).drop_last()
        };
        let desks0 = self.desktops.update(d as int, Desktop { monitor: None });
        let desks = if m < mons.len() {
            desks0.update(mons[m].desktop as int, Desktop { monitor: Some(m as usize) })
        } else {
            desks0
        };
        Model { windows: hide_desktop(self.windows, d), monitors: mons, desktops: desks, focus: f, ..self }
    }

    /// The state after a change of the display output `crtc`: a known output
    /// is disabled or takes its new region, an unknown enabled one gets a monitor.
    pub open spec fn output_changed(self, crtc: u32, enabled: bool, g: Rect, sink: u32) -> Model {
        match self.output_monitor(crtc) {
            Some(m) => if enabled { self.reconfigured(m, g) } else { self.disabled(m) },
            None => if enabled { self.enabled(crtc, g, sink) } else { self },
        }
    }

    /// The first monitor whose region holds the point `(x, y)`.
    pub open spec fn monitor_at(self, x: int, y: int) -> Option<int> {
        if exists|m: int| 0 <= m < self.monitors.len() && self.monitors[m].geometry.holds(x, y) {
            Some(
                choose|m: int|
                    0 <= m < self.monitors.len() && self.monitors[m].geometry.holds(x, y) && forall|k: int|
                        0 <= k < m ==> !self.monitors[k].geometry.holds(x, y),
            )
        } else {
            None
        }
    }

    /// Where a click at `(x, y)` puts the focus: on the clicked window where it
    /// is managed or a monitor's focus window, else on the focus window of the
    /// monitor under the pointer, or of the first monitor.
    pub open spec fn click_focus(self, x: int, y: int, clicked: Option<u32>) -> Option<u32> {
        if clicked is Some && self.focusable(clicked.unwrap()) && clicked.unwrap() != NONE {
            clicked
        } else {
            match self.monitor_at(x, y) {
                Some(m) => Some(self.monitors[m].dummy_window),
                None => if self.monitors.len() > 0 { Some(self.monitors[0].dummy_window) } else { None },
            }
        }
    }

    /// The state after a click at `(x, y)`: the focus moves as `click_focus`
    /// says, and a floating window that takes it is raised.
    pub open spec fn clicked(self, x: i32, y: i32, clicked: Option<u32>) -> Model {
        match self.click_focus(x as int, y as int, clicked) {
            Some(f) => {
                let t = self.with_focus(f);
                if t.has_window(f) && t.windows[t.window_index(f)].floating {
                    let i = t.window_index(f);
                    Model {
                        windows: t.windows.update(
                            i,
                            Window {
                                stacking_order: if t.stacking_counter < u64::MAX { t.stacking_counter } else { t.windows[i].stacking_order },
                                ..t.windows[i]
                            },
                        ),
                        stacking_counter: next_token(t.stacking_counter),
                        ..t
                    }
                } else {
                    t
                }
            },
            None => self,
        }
    }

    /// The requests made for a click at `(x, y)`: the focus moves, and a
    /// floating window that takes it is raised just below the preview window.
    pub open spec fn click_requests(self, x: i32, y: i32, clicked: Option<u32>) -> Seq<Action> {
        match self.click_focus(x as int, y as int, clicked) {
            Some(f) => focus_actions(self, f) + if self.has_window(f) && self.windows[self.window_index(f)].floating {
                seq![
                    Action::Configure {
                        window: f,
                        geometry: None,
                        border_width: None,
                        stack: Some(Stack::Below(self.preview_window)),
                    },
                ]
            } else {
                seq![]
            },
            None => seq![],
        }
    }

    /// The state after a pointer button press at `(x, y)`. The primary and
    /// secondary buttons move the focus as `click_focus` says and raise a
    /// floating window; with the hot key held, a drag session starts at the
    /// pointer and the count of held buttons grows.
    #[verifier::opaque]
    pub open spec fn pressed(self, x: i32, y: i32, clicked: Option<u32>, detail: u8, state: u16) -> Model {
        let s1 = if detail == 1 || detail == 3 {
            self.clicked(x, y, clicked)
        } else {
            self
        };
        if state & modifier_bit(HOT_KEY) != 0 {
            Model {
                dnd_position: Some((x, y)),
                button_count: if s1.button_count < usize::MAX { (s1.button_count + 1) as usize } else { s1.button_count },
                ..s1
            }
        } else {
            s1
        }
    }

    /// The state after the pointer moves to `(x, y)` during a drag session:
    /// the focused window floats, follows the pointer with the primary button
    /// or grows with the secondary one, moves to the desktop of the monitor
    /// the pointer enters, and the snap candidate under the pointer is kept
    /// while the primary button is held. Outside a drag session nothing changes.
    #[verifier::opaque]
    pub open spec fn dragged(self, x: i32, y: i32, state: u16) -> Model {
        match self.dnd_position {
            None => self,
            Some(p) => {
                let s0 = Model { dnd_position: Some((x, y)), ..self };
                if !s0.has_window(s0.focus) {
                    s0
                } else {
                    let i = s0.window_index(s0.focus);
                    let w = s0.windows[i];
                    let s1 = if !w.floating {
                        let t = s0.with_windows(s0.windows.update(i, Window { floating: true, ..w }));
                        match t.desktops[w.desktop as int].monitor {
                            Some(m) => t.with_windows(t.relayout_monitor(m as int)),
                            None => t,
                        }
                    } else {
                        s0
                    };
                    let s2 = s1.drag_moved(i, x, y, x - p.0, y - p.1, state);
                    match s1.desktops[s1.windows[i].desktop as int].monitor {
                        None => s2,
                        Some(m) => s2.snap_shown(x, y, state),
                    }
                }
            },
        }
    }

    /// The state after the dragged window at `i` follows a pointer move of
    /// `(dx, dy)` to `(x, y)`: it moves or grows by `drag_geometry` and, on a
    /// shown desktop, passes to the desktop of the monitor the pointer enters,
    /// keeping its place on the screen.
    pub open spec fn drag_moved(self, i: int, x: i32, y: i32, dx: int, dy: int, state: u16) -> Model {
        let w1 = self.windows[i];
        let g = drag_geometry(w1.geometry, dx, dy, state);
        match self.desktops[w1.desktop as int].monitor {
            None => self.with_windows(self.windows.update(i, Window { geometry: g, ..w1 })),
            Some(m) => {
                let mg = self.monitors[m as int].geometry;
                let target = if mg.holds(x as int, y as int) { None } else { self.monitor_at(x as int, y as int) };
                let w2 = match target {
                    Some(n) => {
                        let ng = self.monitors[n].geometry;
                        Window {
                            desktop: self.monitors[n].desktop,
                            geometry: Rect {
                                x: clamp_add(clamp_add(mg.x as int, g.x as int) as int, -ng.x),
                                y: clamp_add(clamp_add(mg.y as int, g.y as int) as int, -ng.y),
                                ..g
                            },
                            ..w1
                        }
                    },
                    None => Window { geometry: g, ..w1 },
                };
                self.with_windows(self.windows.update(i, w2))
            },
        }
    }

    /// The request made when the dragged window at `i` follows the pointer:
    /// on a shown desktop, it is configured at once at its place on the
    /// screen, just below the preview window.
    pub open spec fn drag_move_requests(self, i: int, x: i32, y: i32, dx: int, dy: int, state: u16) -> Seq<Action> {
        let w1 = self.windows[i];
        match self.desktops[w1.desktop as int].monitor {
            None => seq![],
            Some(m) => {
                let mg = self.monitors[m as int].geometry;
                let target = if mg.holds(x as int, y as int) { None } else { self.monitor_at(x as int, y as int) };
                let cg = match target {
                    Some(n) => self.monitors[n].geometry,
                    None => mg,
                };
                let w2 = self.drag_moved(i, x, y, dx, dy, state).windows[i];
                seq![
                    Action::Configure {
                        window: w2.id,
                        geometry: Some(
                            Rect {
                                x: clamp_add(cg.x as int, w2.geometry.x as int),
                                y: clamp_add(cg.y as int, w2.geometry.y as int),
                                w: w2.geometry.w,
                                h: w2.geometry.h,
                            },
                        ),
                        border_width: None,
                        stack: Some(Stack::Below(self.preview_window)),
                    },
                ]
            },
        }
    }

    /// The requests that show the snap candidate under the pointer at
    /// `(x, y)`: the preview window moves to a new candidate, and is mapped
    /// while the primary button is held over one, unmapped otherwise.
    pub open spec fn snap_requests(self, x: i32, y: i32, state: u16) -> Seq<Action> {
        let snapped = match self.monitor_at(x as int, y as int) {
            Some(n) => snap_target(self.monitors[n].geometry, x as int, y as int),
            None => None,
        };
        (match snapped {
            Some(sg) => if sg != self.preview_geometry {
                seq![
                    Action::Configure {
                        window: self.preview_window,
                        geometry: Some(sg),
                        border_width: None,
                        stack: Some(Stack::TopIf),
                    },
                ]
            } else {
                seq![]
            },
            None => seq![],
        }) + if state & MASK_BUTTON1 != 0 && snapped is Some {
            seq![Action::MapWindow(self.preview_window)]
        } else {
            seq![Action::UnmapWindow(self.preview_window)]
        }
    }

    /// The requests made when the pointer moves to `(x, y)`: during a drag
    /// session, the layout of the monitor that a newly floating window leaves,
    /// the dragged window's configuration, and the snap preview.
    #[verifier::opaque]
    pub open spec fn motion_requests(self, x: i32, y: i32, state: u16) -> Seq<Action> {
        match self.dnd_position {
            None => seq![],
            Some(p) => {
                let s0 = Model { dnd_position: Some((x, y)), ..self };
                if !s0.has_window(s0.focus) {
                    seq![]
                } else {
                    let i = s0.window_index(s0.focus);
                    let w = s0.windows[i];
                    let t = s0.with_windows(s0.windows.update(i, Window { floating: true, ..w }));
                    let (s1, float_reqs) = if !w.floating {
                        match t.desktops[w.desktop as int].monitor {
                            Some(m) => {
                                let t1 = t.with_windows(t.relayout_monitor(m as int));
                                (t1, t1.layout_of(m as int))
                            },
                            None => (t, seq![]),
                        }
                    } else {
                        (s0, seq![])
                    };
                    let s2 = s1.drag_moved(i, x, y, x - p.0, y - p.1, state);
                    float_reqs + s1.drag_move_requests(i, x, y, x - p.0, y - p.1, state) + match s1.desktops[s1.windows[i].desktop as int].monitor {
                        None => seq![],
                        Some(m) => s2.snap_requests(x, y, state),
                    }
                }
            },
        }
    }

    /// The state with the snap candidate under the pointer at `(x, y)` kept
    /// while the primary button is held, and none otherwise.
    pub open spec fn snap_shown(self, x: i32, y: i32, state: u16) -> Model {
        let snapped = match self.monitor_at(x as int, y as int) {
            Some(n) => snap_target(self.monitors[n].geometry, x as int, y as int),
            None => None,
        };
        Model {
            preview_geometry: if state & MASK_BUTTON1 != 0 && snapped is Some {
                snapped.unwrap()
            } else {
                empty_rect()
            },
            ..self
        }
    }

    /// The state after a release of button `detail` at `(x, y)` commits the
    /// snap target: for the primary button over a snap zone, the focused
    /// window takes the target, relative to the monitor under the pointer,
    /// which is laid out again.
    #[verifier::opaque]
    pub open spec fn snap_committed(self, x: i32, y: i32, detail: u8) -> Model {
        if detail == 1 && self.has_window(self.focus) {
            match self.monitor_at(x as int, y as int) {
                Some(m) => {
                    let mg = self.monitors[m].geometry;
                    match snap_target(mg, x as int, y as int) {
                        Some(g) => {
                            let g2 = Rect { x: (g.x - mg.x) as i32, y: (g.y - mg.y) as i32, ..g };
                            let i = self.window_index(self.focus);
                            if g2 != self.windows[i].geometry {
                                let t = self.with_windows(self.windows.update(i, Window { geometry: g2, ..self.windows[i] }));
                                t.with_windows(t.relayout_monitor(m))
                            } else {
                                self
                            }
                        },
                        None => self,
                    }
                },
                None => self,
            }
        } else {
            self
        }
    }

    /// The monitor laid out again when a release of button `detail` at
    /// `(x, y)` commits a snap target, if one is.
    #[verifier::opaque]
    pub open spec fn snap_commit_monitor(self, x: i32, y: i32, detail: u8) -> Option<int> {
        if detail == 1 && self.has_window(self.focus) {
            match self.monitor_at(x as int, y as int) {
                Some(m) => {
                    let mg = self.monitors[m].geometry;
                    match snap_target(mg, x as int, y as int) {
                        Some(g) => {
                            let g2 = Rect { x: (g.x - mg.x) as i32, y: (g.y - mg.y) as i32, ..g };
                            if g2 != self.windows[self.window_index(self.focus)].geometry {
                                Some(m)
                            } else {
                                None
                            }
                        },
                        None => None,
                    }
                },
                None => None,
            }
        } else {
            None
        }
    }

    /// The requests made for a release of button `detail` at `(x, y)`: the
    /// layout of a committed snap, then the pointer let go on synchronously
    /// while buttons remain held, or the preview window hidden.
    #[verifier::opaque]
    pub open spec fn release_requests(self, x: i32, y: i32, detail: u8) -> Seq<Action> {
        let count = if self.button_count > 0 { (self.button_count - 1) as usize } else { 0usize };
        let s1 = Model { button_count: count, ..self };
        (match s1.snap_commit_monitor(x, y, detail) {
            Some(m) => s1.snap_committed(x, y, detail).layout_of(m),
            None => seq![],
        }) + if count > 0 {
            seq![Action::AllowEvents { sync: true }]
        } else {
            seq![Action::UnmapWindow(self.preview_window)]
        }
    }

    /// The state after a pointer button is released at `(x, y)`: the count of
    /// held buttons drops; a release of the primary button over a snap zone
    /// gives the focused window the snap target, relative to the monitor under
    /// the pointer, which is laid out again; and when no button is held any
    /// more the drag session ends.
    #[verifier::opaque]
    pub open spec fn released(self, x: i32, y: i32, detail: u8) -> Model {
        let count = if self.button_count > 0 { (self.button_count - 1) as usize } else { 0usize };
        let s1 = Model { button_count: count, ..self };
        let s2 = s1.snap_committed(x, y, detail);
        if count == 0 {
            Model { dnd_position: None, preview_geometry: empty_rect(), ..s2 }
        } else {
            s2
        }
    }

    /// The state after an event. Key presses and output notifications only
    /// queue commands.
    #[verifier::opaque]
    pub open spec fn after_event(self, e: Event) -> Model {
        match e {
            Event::KeyPress { .. } => self,
            Event::ButtonPress { root_x, root_y, clicked, detail, state } => self.pressed(
                root_x as i32,
                root_y as i32,
                clicked,
                detail,
                state,
            ),
            Event::MotionNotify { root_x, root_y, state } => self.dragged(root_x as i32, root_y as i32, state),
            Event::ButtonRelease { root_x, root_y, detail } => self.released(root_x as i32, root_y as i32, detail),
            Event::MapRequest { window } => self.map_known(window),
            Event::ManageRequest { window, x, y, width, height, dialog } => self.manage(
                window,
                x,
                y,
                width,
                height,
                dialog,
            ),
            Event::UnmapNotify { window } => self.unmapped(window),
            Event::DestroyNotify { window } => self.removed(window),
            Event::OutputChange => self,
            Event::CrtcChange { crtc, enabled, x, y, width, height, sink } => self.output_changed(
                crtc,
                enabled,
                Rect { x: x as i32, y: y as i32, w: width as i32, h: height as i32 },
                sink,
            ),
            Event::ConfigureRequest { window, x, y, width, height } => self.configured(window, x, y, width, height),
            Event::FullscreenRequest { window, action } => self.fullscreen_set(window, action),
        }
    }

    /// The requests that lay out monitor `m` with the windows as they are.
    pub open spec fn layout_of(self, m: int) -> Seq<Action> {
        layout_actions(self.windows, self.monitors[m].desktop, self.monitors[m].geometry, self.preview_window)
    }

    /// The monitor of the desktop of the managed window `id`, if it is shown.
    pub open spec fn window_monitor(self, id: u32) -> Option<usize> {
        if self.has_window(id) {
            self.desktops[self.windows[self.window_index(id)].desktop as int].monitor
        } else {
            None
        }
    }

    /// The requests made when the output of monitor `m` is disabled: the focus
    /// is dropped if it was inside, the windows shown on its desktop are
    /// unmapped, and its focus window is destroyed.
    pub open spec fn disable_requests(self, m: int) -> Seq<Action> {
        let d = self.monitors[m].desktop;
        let sink = self.monitors[m].dummy_window;
        (if shown_on(self.windows, d, self.focus) || self.focus == sink {
            focus_actions(self, NONE)
        } else {
            seq![]
        }) + unmap_requests(mapped_ids(self.windows, d)) + seq![Action::DestroyWindow(sink)] + if self.focus_inside(m)
            && self.monitors.len() > 1 {
            let t = self.unbound(m);
            focus_actions(t, t.fallback_focus(0))
        } else {
            seq![]
        }
    }

    /// The requests made when a new output gets monitor `m` showing desktop
    /// `d`, where `after` is the resulting state: its focus window is created
    /// and mapped, the monitor laid out, the desktop's windows mapped, and the
    /// focus moved.
    pub open spec fn enable_requests(self, after: Model, g: Rect, sink: u32, d: usize) -> Seq<Action> {
        seq![Action::CreateSink { window: sink, x: g.x, y: g.y }, Action::MapWindow(sink)]
            + after.layout_of(self.monitors.len() as int) + map_requests(mapped_ids(after.windows, d))
            + focus_actions(after.with_focus(self.focus), after.focus)
    }

    /// The requests made on a change of the display output `crtc`, where
    /// `after` is the resulting state.
    pub open spec fn output_requests(self, after: Model, crtc: u32, enabled: bool, g: Rect, sink: u32) -> Seq<Action> {
        match self.output_monitor(crtc) {
            Some(m) => if enabled { after.layout_of(m) } else { self.disable_requests(m) },
            None => if enabled {
                match self.free_desktop() {
                    Some(d) => self.enable_requests(after, g, sink, d as usize),
                    None => seq![],
                }
            } else {
                seq![]
            },
        }
    }

    /// The requests made for a map request of the managed window `id`, where
    /// `after` is the resulting state: a layout, the map, and the focus moved.
    pub open spec fn map_known_requests(self, after: Model, id: u32) -> Seq<Action> {
        match self.window_monitor(id) {
            Some(m) => after.layout_of(m as int) + seq![Action::MapWindow(id)] + focus_actions(self, id),
            None => seq![],
        }
    }

    /// The requests made for a map request of a window seen for the first
    /// time, where `after` is the resulting state.
    pub open spec fn manage_requests(self, after: Model, id: u32) -> Seq<Action> {
        if self.has_window(id) {
            self.map_known_requests(after, id)
        } else if !self.can_manage(id) {
            if id != NONE && !self.is_sink(id) { seq![Action::MapWindow(id)] } else { seq![] }
        } else {
            seq![Action::SetAllowedActions(id)] + after.layout_of(self.acting_monitor())
                + seq![Action::MapWindow(id)] + focus_actions(after.with_focus(self.focus), id)
        }
    }

    /// The requests made for an unmap notification of `id`, where `after` is
    /// the resulting state.
    pub open spec fn unmapped_requests(self, after: Model, id: u32) -> Seq<Action> {
        if self.has_window(id) && !self.windows[self.window_index(id)].ignore_unmap_notify {
            match self.window_monitor(id) {
                Some(m) => (if self.focus == id {
                    focus_actions(self, after.focus)
                } else {
                    seq![]
                }) + after.layout_of(m as int),
                None => seq![],
            }
        } else {
            seq![]
        }
    }

    /// The requests made when the window `id` is destroyed, where `after` is
    /// the resulting state.
    pub open spec fn removed_requests(self, after: Model, id: u32) -> Seq<Action> {
        (if self.has_window(id) && self.focus == id {
            seq![Action::SetInputFocus(NONE)]
        } else {
            seq![]
        }) + (match self.window_monitor(id) {
            Some(m) => after.layout_of(m as int),
            None => seq![],
        }) + if self.has_window(id) && self.focus == id && after.monitors.len() > 0 {
            focus_actions(after.with_focus(NONE), after.focus)
        } else {
            seq![]
        }
    }

    /// The requests made for a configure request of `id`: it is granted as
    /// asked for a floating or unmanaged window.
    pub open spec fn configured_requests(self, id: u32) -> Seq<Action> {
        if !self.has_window(id) || self.windows[self.window_index(id)].floating {
            seq![Action::PassConfigure(id)]
        } else {
            seq![]
        }
    }

    /// The requests made for a fullscreen request, where `after` is the resulting state.
    pub open spec fn fullscreen_requests(self, after: Model, id: u32, action: u32) -> Seq<Action> {
        if self.has_window(id) && (action == 0 || action == 1) {
            (match self.window_monitor(id) {
                Some(m) => after.layout_of(m as int),
                None => seq![],
            }) + seq![Action::SetFullscreenState { window: id, fullscreen: action == 1 }]
        } else {
            seq![]
        }
    }

    /// The requests made for a pointer button press: the focus moves as
    /// `click_focus` says and a floating window is raised below the preview
    /// window; last, the pointer is let go on.
    pub open spec fn press_requests(self, x: i32, y: i32, clicked: Option<u32>, detail: u8, state: u16) -> Seq<Action> {
        (if detail == 1 || detail == 3 {
            self.click_requests(x, y, clicked)
        } else {
            seq![]
        }) + seq![Action::AllowEvents { sync: state & modifier_bit(HOT_KEY) != 0 }]
    }

    /// The requests made for an event, where `after` is the resulting state.
    #[verifier::opaque]
    pub open spec fn event_requests(self, after: Model, e: Event) -> Seq<Action> {
        match e {
            Event::ButtonPress { root_x, root_y, clicked, detail, state } => self.press_requests(
                root_x as i32,
                root_y as i32,
                clicked,
                detail,
                state,
            ),
            Event::MotionNotify { root_x, root_y, state } => self.motion_requests(root_x as i32, root_y as i32, state),
            Event::ButtonRelease { root_x, root_y, detail } => self.release_requests(root_x as i32, root_y as i32, detail),
            Event::MapRequest { window } => self.map_known_requests(after, window),
            Event::ManageRequest { window, .. } => self.manage_requests(after, window),
            Event::UnmapNotify { window } => self.unmapped_requests(after, window),
            Event::DestroyNotify { window } => self.removed_requests(after, window),
            Event::CrtcChange { crtc, enabled, x, y, width, height, sink } => self.output_requests(
                after,
                crtc,
                enabled,
                Rect { x: x as i32, y: y as i32, w: width as i32, h: height as i32 },
                sink,
            ),
            Event::ConfigureRequest { window, .. } => self.configured_requests(window),
            Event::FullscreenRequest { window, action } => self.fullscreen_requests(after, window, action),
            _ => seq![],
        }
    }

    /// The requests made when desktop `target` is brought to the acting
    /// monitor: for a trade of places, the layouts of both monitors; for a
    /// hidden desktop, the old desktop's windows unmapped, the new one's
    /// mapped, and the layout; then the focus moved.
    pub open spec fn switch_requests(self, target: usize) -> Seq<Action> {
        let mb = self.acting_monitor();
        match self.desktops[target as int].monitor {
            Some(ma) => {
                let t = self.swap_bound(target);
                let t1 = t.with_windows(t.relayout_monitor(ma as int));
                let t2 = t1.with_windows(t1.relayout_monitor(mb));
                t1.layout_of(ma as int) + t2.layout_of(mb) + focus_actions(t2, t2.fallback_focus(mb))
            },
            None => {
                if self.monitors.len() == 0 {
                    seq![]
                } else {
                    let t = self.replace_bound(target);
                    let t1 = t.with_windows(t.relayout_monitor(mb));
                    unmap_requests(mapped_ids(self.windows, self.monitors[mb].desktop)) + map_requests(
                        mapped_ids(t.windows, target),
                    ) + t1.layout_of(mb) + focus_actions(t1, t1.fallback_focus(mb))
                }
            },
        }
    }

    /// The requests made when the focused window is sent to desktop `target`:
    /// where `target` is hidden, the window is unmapped and the focus moved;
    /// then the layouts of the old monitor and of the new one, if shown.
    pub open spec fn move_requests(self, target: usize) -> Seq<Action> {
        if self.has_window(self.focus) {
            let i = self.window_index(self.focus);
            let w = self.windows[i];
            match self.desktops[w.desktop as int].monitor {
                Some(om) => {
                    let om = om as int;
                    let nm = self.desktops[target as int].monitor;
                    let w1 = Window {
                        desktop: target,
                        ignore_unmap_notify: if nm is None { true } else { w.ignore_unmap_notify },
                        ..w
                    };
                    let t0 = self.with_windows(self.windows.update(i, w1));
                    let f = if nm is None { first_or(t0.windows, w.desktop, self.monitors[om].dummy_window) } else { self.focus };
                    let t1 = t0.with_focus(f);
                    let t2 = t1.with_windows(t1.relayout_monitor(om));
                    (if nm is None {
                        seq![Action::UnmapWindow(w.id)] + focus_actions(t0, f)
                    } else {
                        seq![]
                    }) + t2.layout_of(om) + match nm {
                        Some(n) => t2.with_windows(t2.relayout_monitor(n as int)).layout_of(n as int),
                        None => seq![],
                    }
                },
                None => seq![],
            }
        } else {
            seq![]
        }
    }

    /// The drag session is over: no pointer position, no snap candidate.
    pub open spec fn drag_idle(self) -> bool {
        self.dnd_position is None && self.preview_geometry == empty_rect()
    }
}

// ---------------------------------------------------------------------------
// Lemmas on the window table

pub proof fn lemma_take_succ<A>(s: Seq<A>, i: int)
    requires
        0 <= i < s.len(),
    ensures
        s.take(i + 1).drop_last() == s.take(i),
        s.take(i + 1).last() == s[i],
{
    reveal(Model::ids_apart);
    reveal(Model::tokens_ordered);
    assert(s.take(i + 1).drop_last() =~= s.take(i));
}

pub proof fn lemma_count_bound(ws: Seq<Window>, d: usize, i: int)
    requires
        0 <= i < ws.len(),
    ensures
        count_tiled(ws.take(i), d) + (if is_tiled(ws[i], d) { 1nat } else { 0nat })
            <= count_tiled(ws, d),
    decreases ws.len(),
{
    reveal(Model::ids_apart);
    reveal(Model::tokens_ordered);
    lemma_take_succ(ws, i);
    if i == ws.len() - 1 {
        assert(ws.take(i + 1) =~= ws);
    } else {
        let w2 = ws.drop_last();
        assert(w2.take(i) =~= ws.take(i));
        lemma_count_bound(w2, d, i);
    }
}

/// Two tables that agree on the identity and tiling status of every window have
/// the same tiled counts, of the whole and of every prefix.
pub proof fn lemma_count_same(a: Seq<Window>, b: Seq<Window>, d: usize)
    requires
        a.len() == b.len(),
        forall|i: int| 0 <= i < a.len() ==> is_tiled(#[trigger] a[i], d) == is_tiled(b[i], d),
    ensures
        count_tiled(a, d) == count_tiled(b, d),
    decreases a.len(),
{
    reveal(Model::ids_apart);
    reveal(Model::tokens_ordered);
    if a.len() > 0 {
        lemma_count_same(a.drop_last(), b.drop_last(), d);
    }
}

pub proof fn lemma_count_same_prefix(a: Seq<Window>, b: Seq<Window>, d: usize, k: int)
    requires
        a.len() == b.len(),
        0 <= k <= a.len(),
        forall|i: int| 0 <= i < a.len() ==> is_tiled(#[trigger] a[i], d) == is_tiled(b[i], d),
    ensures
        count_tiled(a.take(k), d) == count_tiled(b.take(k), d),
{
    reveal(Model::ids_apart);
    reveal(Model::tokens_ordered);
    lemma_count_same(a.take(k), b.take(k), d);
}

/// A relayout keeps every field of every window but the geometry.
pub proof fn lemma_relayout_keeps(ws: Seq<Window>, d: usize, mg: Rect)
    ensures
        relayout(ws, d, mg).len() == ws.len(),
        forall|i: int|
            0 <= i < ws.len() ==> {
                let w = #[trigger] relayout(ws, d, mg)[i];
                &&& w.id == ws[i].id
                &&& w.desktop == ws[i].desktop
                &&& w.mapped == ws[i].mapped
                &&& w.floating == ws[i].floating
                &&& w.fullscreen == ws[i].fullscreen
                &&& w.stacking_order == ws[i].stacking_order
                &&& w.ignore_unmap_notify == ws[i].ignore_unmap_notify
            },
{
    reveal(Model::ids_apart);
    reveal(Model::tokens_ordered);
}

/// `mapped_ids` of a prefix is a prefix of `mapped_ids`.
pub proof fn lemma_mapped_prefix(ws: Seq<Window>, d: usize, k: int)
    requires
        0 <= k <= ws.len(),
    ensures
        mapped_ids(ws.take(k), d).len() <= mapped_ids(ws, d).len(),
        mapped_ids(ws.take(k), d) == mapped_ids(ws, d).take(mapped_ids(ws.take(k), d).len() as int),
    decreases ws.len(),
{
    reveal(Model::ids_apart);
    reveal(Model::tokens_ordered);
    if k == ws.len() {
        assert(ws.take(k) =~= ws);
        assert(mapped_ids(ws, d).take(mapped_ids(ws, d).len() as int) =~= mapped_ids(ws, d));
    } else {
        let w2 = ws.drop_last();
        assert(w2.take(k) =~= ws.take(k));
        lemma_mapped_prefix(w2, d, k);
        let p = mapped_ids(ws.take(k), d);
        if is_mapped_on(ws.last(), d) {
            assert(mapped_ids(ws, d).take(p.len() as int) =~= mapped_ids(w2, d).take(p.len() as int));
        }
    }
}

/// Some window with identifier `id` is shown on desktop `d`.
pub open spec fn shown_on(ws: Seq<Window>, d: usize, id: u32) -> bool {
    exists|i: int| 0 <= i < ws.len() && ws[i].id == id && is_mapped_on(ws[i], d)
}

/// Every identifier in `mapped_ids` belongs to a window shown on the desktop.
pub proof fn lemma_mapped_ids_members(ws: Seq<Window>, d: usize)
    ensures
        forall|k: int| 0 <= k < mapped_ids(ws, d).len() ==> shown_on(ws, d, #[trigger] mapped_ids(ws, d)[k]),
    decreases ws.len(),
{
    reveal(Model::ids_apart);
    reveal(Model::tokens_ordered);
    if ws.len() > 0 {
        let w2 = ws.drop_last();
        let ids = mapped_ids(ws, d);
        let ids2 = mapped_ids(w2, d);
        lemma_mapped_ids_members(w2, d);
        assert forall|k: int| 0 <= k < ids.len() implies shown_on(ws, d, #[trigger] ids[k]) by {
            if k < ids2.len() {
                assert(ids[k] == ids2[k]);
                assert(shown_on(w2, d, ids2[k]));
                let i = choose|i: int| 0 <= i < w2.len() && w2[i].id == ids2[k] && is_mapped_on(w2[i], d);
                assert(ws[i] == w2[i]);
            } else {
                let i = ws.len() - 1;
                assert(ws[i] == ws.last());
                assert(ws[i].id == ids[k]);
            }
        }
    }
}

/// A relayout keeps the invariant.
pub proof fn lemma_relayout_wf(s: Model, m: int)
    requires
        s.inv(),
        0 <= m < s.monitors.len(),
    ensures
        s.with_windows(s.relayout_monitor(m)).inv(),
        forall|id: u32| #[trigger] s.with_windows(s.relayout_monitor(m)).has_window(id) == s.has_window(id),
{
    reveal(Model::ids_apart);
    reveal(Model::tokens_ordered);
    let d = s.monitors[m].desktop;
    let mg = s.monitors[m].geometry;
    let ws = relayout(s.windows, d, mg);
    assert(ws == s.relayout_monitor(m));
    let t = s.with_windows(ws);
    lemma_relayout_keeps(s.windows, d, mg);
    assert forall|id: u32| #[trigger] t.has_window(id) == s.has_window(id) by {
        if s.has_window(id) {
            let i = choose|i: int| 0 <= i < s.windows.len() && s.windows[i].id == id;
            assert(ws[i].id == s.windows[i].id);
            assert(t.windows[i].id == id);
        }
        if t.has_window(id) {
            let i = choose|i: int| 0 <= i < t.windows.len() && t.windows[i].id == id;
            assert(ws[i].id == s.windows[i].id);
        }
    }
    assert(t.has_window(t.focus) == s.has_window(s.focus));
    assert(t.monitors == s.monitors);
    assert(t.focus == s.focus);
    assert(t.is_sink(t.focus) == s.is_sink(s.focus));
    assert(t.focusable(t.focus));
    assert(t.ids_unique()) by {
        assert forall|i: int, j: int|
            0 <= i < t.windows.len() && 0 <= j < t.windows.len() && i != j
                implies #[trigger] t.windows[i].id != #[trigger] t.windows[j].id by {
            assert(ws[i].id == s.windows[i].id);
            assert(ws[j].id == s.windows[j].id);
        }
    }
    assert forall|i: int| 0 <= i < t.windows.len() implies (#[trigger] t.windows[i]).desktop < NUM_DESKTOPS by {
        assert(ws[i].desktop == s.windows[i].desktop);
    }
}

/// Replacing a window by one with the same identifier and a valid desktop keeps the invariant.
pub proof fn lemma_update_wf(s: Model, i: int, w: Window)
    requires
        s.inv(),
        0 <= i < s.windows.len(),
        w.id == s.windows[i].id,
        w.stacking_order == s.windows[i].stacking_order || (w.stacking_order < s.stacking_counter && forall|j: int|
            0 <= j < s.windows.len() && j != i ==> s.windows[j].stacking_order != w.stacking_order),
        w.desktop < NUM_DESKTOPS,
    ensures
        s.with_windows(s.windows.update(i, w)).inv(),
        forall|id: u32| #[trigger] s.with_windows(s.windows.update(i, w)).has_window(id) == s.has_window(id),
        forall|id: u32| s.has_window(id) ==> #[trigger] s.with_windows(s.windows.update(i, w)).window_index(id) == s.window_index(id),
{
    reveal(Model::ids_apart);
    reveal(Model::tokens_ordered);
    let ws = s.windows.update(i, w);
    let t = s.with_windows(ws);
    assert forall|id: u32| #[trigger] t.has_window(id) == s.has_window(id) by {
        if s.has_window(id) {
            let j = choose|j: int| 0 <= j < s.windows.len() && s.windows[j].id == id;
            assert(ws[j].id == id);
            assert(t.windows[j].id == id);
        }
        if t.has_window(id) {
            let j = choose|j: int| 0 <= j < t.windows.len() && t.windows[j].id == id;
            assert(ws[j].id == id);
            assert(s.windows[j].id == id);
        }
    }
    assert forall|id: u32| s.has_window(id) implies #[trigger] t.window_index(id) == s.window_index(id) by {
        let a = t.window_index(id);
        let b = s.window_index(id);
        assert(t.has_window(id));
        assert(ws[a].id == id);
        assert(s.windows[a].id == id);
    }
    assert(t.monitors == s.monitors);
    assert(t.focusable(t.focus));
    assert(t.ids_unique()) by {
        assert forall|a: int, b: int|
            0 <= a < t.windows.len() && 0 <= b < t.windows.len() && a != b
                implies #[trigger] t.windows[a].id != #[trigger] t.windows[b].id by {
            assert(ws[a].id == s.windows[a].id);
            assert(ws[b].id == s.windows[b].id);
        }
    }
}

/// In a well-formed state the window at `i` is found by its identifier.
pub proof fn lemma_index_of(s: Model, i: int)
    requires
        s.inv(),
        0 <= i < s.windows.len(),
    ensures
        s.has_window(s.windows[i].id),
        s.window_index(s.windows[i].id) == i,
        s.windows[i].id != NONE,
{
    reveal(Model::ids_apart);
    reveal(Model::tokens_ordered);
    let id = s.windows[i].id;
    assert(s.has_window(id));
    let j = s.window_index(id);
    assert(s.windows[j].id == id);
}

/// No monitor's focus window is `NONE`, nor a managed window.
pub proof fn lemma_sink_apart(s: Model, m: int)
    requires
        s.inv(),
        0 <= m < s.monitors.len(),
    ensures
        s.monitors[m].dummy_window != NONE,
        !s.has_window(s.monitors[m].dummy_window),
{
    reveal(Model::ids_apart);
    reveal(Model::tokens_ordered);
    if s.has_window(s.monitors[m].dummy_window) {
        let i = s.window_index(s.monitors[m].dummy_window);
        assert(s.windows[i].id != s.monitors[m].dummy_window);
    }
}

/// The monitor that shows a desktop exists and shows that desktop.
pub proof fn lemma_desktop_monitor(s: Model, d: int)
    requires
        s.inv(),
        0 <= d < s.desktops.len(),
        s.desktops[d].monitor is Some,
    ensures
        s.desktops[d].monitor.unwrap() < s.monitors.len(),
        s.monitors[s.desktops[d].monitor.unwrap() as int].desktop == d,
{
    reveal(Model::ids_apart);
    reveal(Model::tokens_ordered);
    assert(match s.desktops[d].monitor {
        Some(m) => m < s.monitors.len() && s.monitors[m as int].desktop == d,
        None => true,
    });
}

/// Trading the places of two desktops keeps the invariant.
pub proof fn lemma_swap_wf(s: Model, target: usize)
    requires
        s.inv(),
        target < NUM_DESKTOPS,
        s.desktops[target as int].monitor is Some,
        0 <= s.acting_monitor() < s.monitors.len(),
    ensures
        s.swap_bound(target).inv(),
{
    reveal(Model::ids_apart);
    reveal(Model::tokens_ordered);
    let t = s.swap_bound(target);
    lemma_desktop_monitor(s, target as int);
    assert(t.focusable(t.focus)) by {
        if s.is_sink(s.focus) {
            let k = choose|k: int| 0 <= k < s.monitors.len() && s.monitors[k].dummy_window == s.focus;
            assert(t.monitors[k].dummy_window == s.focus);
        }
        if s.has_window(s.focus) {
            let k = s.window_index(s.focus);
            assert(t.windows[k].id == t.focus);
        }
    }
    assert forall|m: int| 0 <= m < t.monitors.len() implies (#[trigger] t.monitors[m]).geometry.is_screen_rect() by {
        assert(t.monitors[m].geometry == s.monitors[m].geometry);
    }
    assert forall|m: int| 0 <= m < t.monitors.len() implies {
        &&& #[trigger] t.monitors[m].desktop < t.desktops.len()
        &&& t.desktops[t.monitors[m].desktop as int].monitor is Some
        &&& t.desktops[t.monitors[m].desktop as int].monitor.unwrap() as int == m
    } by {
        assert(s.desktops[s.monitors[m].desktop as int].monitor.unwrap() as int == m);
    }
    assert forall|d: int| 0 <= d < t.desktops.len() implies match #[trigger] t.desktops[d].monitor {
        Some(m) => m < t.monitors.len() && t.monitors[m as int].desktop == d,
        None => true,
    } by {
        assert(match s.desktops[d].monitor {
            Some(m) => m < s.monitors.len() && s.monitors[m as int].desktop == d,
            None => true,
        });
    }
}

/// Replacing the acting monitor's desktop by a hidden one keeps the invariant.
pub proof fn lemma_replace_wf(s: Model, target: usize)
    requires
        s.inv(),
        target < NUM_DESKTOPS,
        s.desktops[target as int].monitor is None,
        0 <= s.acting_monitor() < s.monitors.len(),
    ensures
        s.replace_bound(target).inv(),
{
    reveal(Model::ids_apart);
    reveal(Model::tokens_ordered);
    let t = s.replace_bound(target);
    let ws = t.windows;
    assert forall|j: int| 0 <= j < ws.len() implies ws[j].id == s.windows[j].id && (#[trigger] ws[j]).desktop
        == s.windows[j].desktop by {}
    assert(t.has_window(t.focus) == s.has_window(s.focus)) by {
        if s.has_window(s.focus) {
            let k = s.window_index(s.focus);
            assert(ws[k].id == s.focus);
        }
        if t.has_window(t.focus) {
            let k = choose|k: int| 0 <= k < ws.len() && ws[k].id == t.focus;
            assert(s.windows[k].id == s.focus);
        }
    }
    assert(t.focusable(t.focus)) by {
        if s.is_sink(s.focus) {
            let k = choose|k: int| 0 <= k < s.monitors.len() && s.monitors[k].dummy_window == s.focus;
            assert(t.monitors[k].dummy_window == s.focus);
        }
    }
    assert(t.ids_unique()) by {
        assert forall|a: int, b: int|
            0 <= a < ws.len() && 0 <= b < ws.len() && a != b implies #[trigger] ws[a].id != #[trigger] ws[b].id by {
            assert(ws[a].id == s.windows[a].id);
            assert(ws[b].id == s.windows[b].id);
        }
    }
    assert forall|m: int| 0 <= m < t.monitors.len() implies (#[trigger] t.monitors[m]).geometry.is_screen_rect() by {
        assert(t.monitors[m].geometry == s.monitors[m].geometry);
    }
    assert forall|m: int| 0 <= m < t.monitors.len() implies {
        &&& #[trigger] t.monitors[m].desktop < t.desktops.len()
        &&& t.desktops[t.monitors[m].desktop as int].monitor is Some
        &&& t.desktops[t.monitors[m].desktop as int].monitor.unwrap() as int == m
    } by {
        assert(s.desktops[s.monitors[m].desktop as int].monitor.unwrap() as int == m);
    }
    assert forall|d: int| 0 <= d < t.desktops.len() implies match #[trigger] t.desktops[d].monitor {
        Some(m) => m < t.monitors.len() && t.monitors[m as int].desktop == d,
        None => true,
    } by {
        assert(match s.desktops[d].monitor {
            Some(m) => m < s.monitors.len() && s.monitors[m as int].desktop == d,
            None => true,
        });
    }
}

/// Adding a window with a new identifier and a valid desktop keeps the invariant.
pub proof fn lemma_push_wf(s: Model, w: Window)
    requires
        s.inv(),
        w.stacking_order < s.stacking_counter,
        forall|j: int| 0 <= j < s.windows.len() ==> s.windows[j].stacking_order != w.stacking_order,
        !s.has_window(w.id),
        w.id != NONE,
        !s.is_sink(w.id),
        w.desktop < NUM_DESKTOPS,
    ensures
        s.with_windows(s.windows.push(w)).inv(),
        s.with_windows(s.windows.push(w)).has_window(w.id),
{
    reveal(Model::ids_apart);
    reveal(Model::tokens_ordered);
    let ws = s.windows.push(w);
    let t = s.with_windows(ws);
    assert(ws[s.windows.len() as int] == w);
    assert(t.windows[s.windows.len() as int].id == w.id);
    assert(t.ids_apart()) by {
        assert forall|i: int, m: int| 0 <= i < t.windows.len() && 0 <= m < t.monitors.len() implies #[trigger] t.windows[i].id
            != #[trigger] t.monitors[m].dummy_window by {
            if i < s.windows.len() {
                assert(t.windows[i] == s.windows[i]);
            }
        }
        assert forall|i: int| 0 <= i < t.windows.len() implies (#[trigger] t.windows[i]).id != NONE by {
            if i < s.windows.len() {
                assert(t.windows[i] == s.windows[i]);
            }
        }
    }
    if s.has_window(s.focus) {
        let k = s.window_index(s.focus);
        assert(ws[k] == s.windows[k]);
        assert(t.windows[k].id == t.focus);
    }
    if s.is_sink(s.focus) {
        let k = choose|k: int| 0 <= k < s.monitors.len() && s.monitors[k].dummy_window == s.focus;
        assert(t.monitors[k].dummy_window == t.focus);
    }
    assert(t.monitors == s.monitors);
    assert(t.focusable(t.focus));
    assert(t.ids_unique()) by {
        assert forall|a: int, b: int|
            0 <= a < ws.len() && 0 <= b < ws.len() && a != b implies #[trigger] ws[a].id != #[trigger] ws[b].id by {
            if a < s.windows.len() {
                assert(ws[a] == s.windows[a]);
            }
            if b < s.windows.len() {
                assert(ws[b] == s.windows[b]);
            }
        }
    }
    assert forall|i: int| 0 <= i < ws.len() implies (#[trigger] ws[i]).desktop < NUM_DESKTOPS by {
        if i < s.windows.len() {
            assert(ws[i] == s.windows[i]);
        }
    }
}

/// Removing a window keeps the invariant once the focus has left it.
pub proof fn lemma_remove_wf(s: Model, i: int)
    requires
        s.inv(),
        0 <= i < s.windows.len(),
    ensures
        ({
            let f = if s.focus == s.windows[i].id { NONE } else { s.focus };
            s.with_windows(s.windows.remove(i)).with_focus(f).inv()
        }),
{
    reveal(Model::ids_apart);
    reveal(Model::tokens_ordered);
    let id = s.windows[i].id;
    let ws = s.windows.remove(i);
    let f = if s.focus == id { NONE } else { s.focus };
    let t = s.with_windows(ws).with_focus(f);
    assert forall|j: int| 0 <= j < ws.len() implies #[trigger] ws[j] == s.windows[if j < i { j } else { j + 1 }] by {}
    if f != NONE && s.has_window(s.focus) {
        let k = s.window_index(s.focus);
        assert(k != i);
        let k2 = if k < i { k } else { k - 1 };
        assert(ws[k2] == s.windows[k]);
        assert(t.has_window(t.focus));
    }
    if f != NONE && s.is_sink(s.focus) {
        let k = choose|k: int| 0 <= k < s.monitors.len() && s.monitors[k].dummy_window == s.focus;
        assert(t.monitors[k].dummy_window == t.focus);
    }
    assert(t.focusable(t.focus));
    assert(t.ids_unique()) by {
        assert forall|a: int, b: int|
            0 <= a < ws.len() && 0 <= b < ws.len() && a != b implies #[trigger] ws[a].id != #[trigger] ws[b].id by {
            assert(ws[a] == s.windows[if a < i { a } else { a + 1 }]);
            assert(ws[b] == s.windows[if b < i { b } else { b + 1 }]);
        }
    }
    assert forall|j: int| 0 <= j < ws.len() implies (#[trigger] ws[j]).desktop < NUM_DESKTOPS by {
        assert(ws[j] == s.windows[if j < i { j } else { j + 1 }]);
    }
}

/// The stacking counter plays no part in the invariant.
pub proof fn lemma_stacking_wf(s: Model, c: u64)
    requires
        s.inv(),
        c >= s.stacking_counter,
    ensures
        s.with_stacking(c).inv(),
        s.wf() ==> s.with_stacking(c).wf(),
        forall|j: int| 0 <= j < s.windows.len() ==> s.windows[j].stacking_order < s.stacking_counter,
{
    reveal(Model::ids_apart);
    reveal(Model::tokens_ordered);
    let t = s.with_stacking(c);
    if s.has_window(s.focus) {
        let k = s.window_index(s.focus);
        assert(t.windows[k].id == t.focus);
    }
    if s.is_sink(s.focus) {
        let k = choose|k: int| 0 <= k < s.monitors.len() && s.monitors[k].dummy_window == s.focus;
        assert(t.monitors[k].dummy_window == t.focus);
    }
}

/// Binding a new monitor to a desktop that no monitor shows keeps the invariant.
pub proof fn lemma_add_monitor_wf(s: Model, crtc: u32, g: Rect, d: usize, sink: u32)
    requires
        s.inv(),
        s.fresh_sink(sink),
        forall|m: int| 0 <= m < s.monitors.len() ==> s.monitors[m].crtc != crtc,
        d < NUM_DESKTOPS,
        s.desktops[d as int].monitor is None,
        g.is_screen_rect(),
        s.monitors.len() < usize::MAX,
    ensures
        s.with_monitor(crtc, g, d, sink).inv(),
{
    reveal(Model::ids_apart);
    reveal(Model::tokens_ordered);
    let t = s.with_monitor(crtc, g, d, sink);
    let n = s.monitors.len() as int;
    assert(t.monitors[n].desktop == d);
    if s.has_window(s.focus) {
        let k = s.window_index(s.focus);
        assert(t.windows[k].id == t.focus);
    }
    if s.is_sink(s.focus) {
        let k = choose|k: int| 0 <= k < s.monitors.len() && s.monitors[k].dummy_window == s.focus;
        assert(t.monitors[k] == s.monitors[k]);
    }
    assert(t.focusable(t.focus));
    assert forall|m: int| 0 <= m < t.monitors.len() implies (#[trigger] t.monitors[m]).geometry.is_screen_rect() by {
        if m < n {
            assert(t.monitors[m] == s.monitors[m]);
        }
    }
    assert forall|m: int| 0 <= m < t.monitors.len() implies {
        &&& #[trigger] t.monitors[m].desktop < t.desktops.len()
        &&& t.desktops[t.monitors[m].desktop as int].monitor is Some
        &&& t.desktops[t.monitors[m].desktop as int].monitor.unwrap() as int == m
    } by {
        if m < n {
            assert(t.monitors[m] == s.monitors[m]);
            assert(s.desktops[s.monitors[m].desktop as int].monitor.unwrap() as int == m);
        }
    }
    assert forall|e: int| 0 <= e < t.desktops.len() implies match #[trigger] t.desktops[e].monitor {
        Some(m) => m < t.monitors.len() && t.monitors[m as int].desktop == e,
        None => true,
    } by {
        assert(match s.desktops[e].monitor {
            Some(m) => m < s.monitors.len() && s.monitors[m as int].desktop == e,
            None => true,
        });
        if e != d {
            if let Some(m) = s.desktops[e].monitor {
                assert(t.monitors[m as int] == s.monitors[m as int]);
            }
        }
    }
}

/// Disabling a monitor keeps the invariant: in particular desktops and
/// monitors stay bound one to one after the last monitor takes the freed slot.
pub proof fn lemma_disable_wf(s: Model, m: int)
    requires
        s.inv(),
        0 <= m < s.monitors.len(),
    ensures
        s.unbound(m).inv(),
{
    reveal(Model::ids_apart);
    reveal(Model::tokens_ordered);
    let t = s.unbound(m);
    let d = s.monitors[m].desktop;
    let last = s.monitors.len() - 1;
    let dl = s.monitors[last].desktop;
    let ws = t.windows;
    assert(s.desktops[d as int].monitor.unwrap() as int == m);
    assert(s.desktops[dl as int].monitor.unwrap() as int == last);
    assert(t.monitors.len() == last);
    assert forall|k: int| 0 <= k < last implies #[trigger] t.monitors[k] == if k == m { s.monitors[last] } else { s.monitors[k] } by {}
    assert forall|j: int| 0 <= j < ws.len() implies ws[j].id == s.windows[j].id && (#[trigger] ws[j]).desktop
        == s.windows[j].desktop by {}
    // the focus
    if t.focus != NONE {
        if s.has_window(s.focus) {
            let k = s.window_index(s.focus);
            assert(ws[k].id == t.focus);
        } else {
            let k = choose|k: int| 0 <= k < s.monitors.len() && s.monitors[k].dummy_window == s.focus;
            assert(k != m);
            if k == last {
                assert(t.monitors[m].dummy_window == t.focus);
            } else {
                assert(t.monitors[k].dummy_window == t.focus);
            }
        }
    }
    assert(t.focusable(t.focus));
    assert(t.ids_unique()) by {
        assert forall|a: int, b: int|
            0 <= a < ws.len() && 0 <= b < ws.len() && a != b implies #[trigger] ws[a].id != #[trigger] ws[b].id by {
            assert(ws[a].id == s.windows[a].id);
            assert(ws[b].id == s.windows[b].id);
        }
    }
    assert forall|k: int| 0 <= k < t.monitors.len() implies (#[trigger] t.monitors[k]).geometry.is_screen_rect() by {
        if k == m {
            assert(t.monitors[k] == s.monitors[last]);
        } else {
            assert(t.monitors[k] == s.monitors[k]);
        }
    }
    assert forall|k: int| 0 <= k < t.monitors.len() implies {
        &&& #[trigger] t.monitors[k].desktop < t.desktops.len()
        &&& t.desktops[t.monitors[k].desktop as int].monitor is Some
        &&& t.desktops[t.monitors[k].desktop as int].monitor.unwrap() as int == k
    } by {
        if k == m {
            assert(t.monitors[k].desktop == dl);
            assert(dl != d);
        } else {
            let dk = s.monitors[k].desktop;
            assert(s.desktops[dk as int].monitor.unwrap() as int == k);
            assert(t.monitors[k].desktop == dk);
            assert(dk != d);
            if m < last {
                assert(dk != dl);
            }
        }
    }
    assert forall|e: int| 0 <= e < t.desktops.len() implies match #[trigger] t.desktops[e].monitor {
        Some(k) => k < t.monitors.len() && t.monitors[k as int].desktop == e,
        None => true,
    } by {
        assert(match s.desktops[e].monitor {
            Some(k) => k < s.monitors.len() && s.monitors[k as int].desktop == e,
            None => true,
        });
        if m < last && e == dl {
            assert(t.desktops[e].monitor == Some(m as usize));
            assert(t.monitors[m].desktop == dl);
        } else if e == d {
        } else if let Some(k) = s.desktops[e].monitor {
            assert(k as int != m);
            assert(k as int != last);
            assert(t.desktops[e] == s.desktops[e]);
            assert(t.monitors[k as int] == s.monitors[k as int]);
        }
    }
}

/// While some desktop is shown on no monitor, there are fewer monitors than desktops.
pub proof fn lemma_monitor_count(s: Model, d: int)
    requires
        s.inv(),
        0 <= d < s.desktops.len(),
        s.desktops[d].monitor is None,
    ensures
        s.monitors.len() < NUM_DESKTOPS,
{
    reveal(Model::ids_apart);
    reveal(Model::tokens_ordered);
    let n = s.monitors.len() as int;
    let ds = Seq::new(n as nat, |k: int| s.monitors[k].desktop as int);
    monitor_desktop_bijection(s);
    assert(ds.no_duplicates()) by {
        assert forall|a: int, b: int| 0 <= a < ds.len() && 0 <= b < ds.len() && a != b implies ds[a] != ds[b] by {
            assert(s.monitors[a].desktop != s.monitors[b].desktop);
        }
    }
    ds.unique_seq_to_set();
    let range = set_int_range(0, NUM_DESKTOPS as int);
    lemma_int_range(0, NUM_DESKTOPS as int);
    let free = range.remove(d);
    assert(range.contains(d));
    assert(free.len() == NUM_DESKTOPS - 1);
    assert(ds.to_set().subset_of(free)) by {
        assert forall|x: int| ds.to_set().contains(x) implies free.contains(x) by {
            let k = choose|k: int| 0 <= k < ds.len() && ds[k] == x;
            assert(s.monitors[k].desktop < s.desktops.len());
            assert(s.desktops[s.monitors[k].desktop as int].monitor is Some);
        }
    }
    lemma_len_subset(ds.to_set(), free);
}

/// Giving a monitor a new region that the display server can describe keeps the invariant.
pub proof fn lemma_geometry_wf(s: Model, m: int, g: Rect)
    requires
        s.inv(),
        0 <= m < s.monitors.len(),
        g.is_screen_rect(),
    ensures
        (Model { monitors: s.monitors.update(m, Monitor { geometry: g, ..s.monitors[m] }), ..s }).inv(),
{
    reveal(Model::ids_apart);
    reveal(Model::tokens_ordered);
    let t = Model { monitors: s.monitors.update(m, Monitor { geometry: g, ..s.monitors[m] }), ..s };
    if s.has_window(s.focus) {
        let k = s.window_index(s.focus);
        assert(t.windows[k].id == t.focus);
    }
    if s.is_sink(s.focus) {
        let k = choose|k: int| 0 <= k < s.monitors.len() && s.monitors[k].dummy_window == s.focus;
        assert(t.monitors[k].dummy_window == t.focus);
    }
    assert forall|k: int| 0 <= k < t.monitors.len() implies {
        &&& #[trigger] t.monitors[k].desktop < t.desktops.len()
        &&& t.desktops[t.monitors[k].desktop as int].monitor is Some
        &&& t.desktops[t.monitors[k].desktop as int].monitor.unwrap() as int == k
    } by {
        assert(t.monitors[k].desktop == s.monitors[k].desktop);
        assert(s.desktops[s.monitors[k].desktop as int].monitor.unwrap() as int == k);
    }
    assert forall|e: int| 0 <= e < t.desktops.len() implies match #[trigger] t.desktops[e].monitor {
        Some(k) => k < t.monitors.len() && t.monitors[k as int].desktop == e,
        None => true,
    } by {
        assert(match s.desktops[e].monitor {
            Some(k) => k < s.monitors.len() && s.monitors[k as int].desktop == e,
            None => true,
        });
    }
}

/// A bound command names only existing desktops when every binding does.
pub proof fn lemma_binding_fits(kb: Seq<(u16, u8, Command)>, state: u16, detail: u8)
    requires
        forall|i: int| 0 <= i < kb.len() ==> (#[trigger] kb[i]).2.fits_desktops(NUM_DESKTOPS as nat),
    ensures
        match binding(kb, state, detail) {
            Some(c) => c.fits_desktops(NUM_DESKTOPS as nat),
            None => true,
        },
    decreases kb.len(),
{
    reveal(Model::ids_apart);
    reveal(Model::tokens_ordered);
    if kb.len() > 0 {
        assert(kb.last() == kb[kb.len() - 1]);
        let k2 = kb.drop_last();
        assert forall|i: int| 0 <= i < k2.len() implies (#[trigger] k2[i]).2.fits_desktops(NUM_DESKTOPS as nat) by {
            assert(k2[i] == kb[i]);
        }
        lemma_binding_fits(k2, state, detail);
    }
}

/// The drag state keeps the invariant as long as a held button has a position.
pub proof fn lemma_drag_wf(s: Model, dnd: Option<(i32, i32)>, count: usize, preview: Rect)
    requires
        s.inv(),
        count > 0 ==> dnd is Some,
    ensures
        (Model { dnd_position: dnd, button_count: count, preview_geometry: preview, ..s }).inv(),
        s.wf() ==> (Model { dnd_position: dnd, button_count: count, preview_geometry: preview, ..s }).wf(),
{
    reveal(Model::ids_apart);
    reveal(Model::tokens_ordered);
    let t = Model { dnd_position: dnd, button_count: count, preview_geometry: preview, ..s };
    if s.has_window(s.focus) {
        let k = s.window_index(s.focus);
        assert(t.windows[k].id == t.focus);
    }
    if s.is_sink(s.focus) {
        let k = choose|k: int| 0 <= k < s.monitors.len() && s.monitors[k].dummy_window == s.focus;
        assert(t.monitors[k].dummy_window == t.focus);
    }
}

/// The first shown window of a monitor's desktop, or its focus window, may
/// hold the focus, and is not `NONE`.
pub proof fn lemma_fallback_focusable(s: Model, m: int)
    requires
        0 <= m < s.monitors.len(),
        s.ids_apart(),
    ensures
        s.focusable(s.fallback_focus(m)),
        s.fallback_focus(m) != NONE,
        s.has_window(s.fallback_focus(m)) || s.is_sink(s.fallback_focus(m)),
{
    reveal(Model::ids_apart);
    reveal(Model::tokens_ordered);
    let d = s.monitors[m].desktop;
    lemma_mapped_ids_members(s.windows, d);
    if mapped_ids(s.windows, d).len() > 0 {
        assert(mapped_ids(s.windows, d)[0] == s.fallback_focus(m));
        assert(shown_on(s.windows, d, mapped_ids(s.windows, d)[0]));
    } else {
        assert(s.monitors[m].dummy_window == s.fallback_focus(m));
    }
}

// ---------------------------------------------------------------------------
// Laws of the engine's state

/// Monitors and desktops are bound one to one: no desktop is shown on two
/// monitors, and no monitor shows two desktops.
pub proof fn monitor_desktop_bijection(s: Model)
    requires
        s.inv(),
    ensures
        forall|m1: int, m2: int|
            0 <= m1 < s.monitors.len() && 0 <= m2 < s.monitors.len() && m1 != m2
                ==> #[trigger] s.monitors[m1].desktop != #[trigger] s.monitors[m2].desktop,
        forall|d1: int, d2: int|
            0 <= d1 < s.desktops.len() && 0 <= d2 < s.desktops.len() && d1 != d2
                && #[trigger] s.desktops[d1].monitor is Some ==> #[trigger] s.desktops[d2].monitor
                != s.desktops[d1].monitor,
{
    assert forall|m1: int, m2: int|
        0 <= m1 < s.monitors.len() && 0 <= m2 < s.monitors.len() && m1 != m2
            implies #[trigger] s.monitors[m1].desktop != #[trigger] s.monitors[m2].desktop by {
        let d1 = s.monitors[m1].desktop as int;
        let d2 = s.monitors[m2].desktop as int;
        assert(s.desktops[d1].monitor.unwrap() as int == m1);
        assert(s.desktops[d2].monitor.unwrap() as int == m2);
    }
    assert forall|d1: int, d2: int|
        0 <= d1 < s.desktops.len() && 0 <= d2 < s.desktops.len() && d1 != d2
            && #[trigger] s.desktops[d1].monitor is Some implies #[trigger] s.desktops[d2].monitor
            != s.desktops[d1].monitor by {
        let m = s.desktops[d1].monitor.unwrap();
        assert(s.monitors[m as int].desktop == d1);
    }
}

/// The focus never names a removed window: while a monitor exists it is a
/// managed window or the focus window of an existing monitor; with no monitor
/// it is nothing or a managed window.
pub proof fn focus_is_live(s: Model)
    requires
        s.wf(),
    ensures
        s.monitors.len() > 0 ==> (exists|i: int| 0 <= i < s.windows.len() && s.windows[i].id == s.focus) || (exists|m: int|
            0 <= m < s.monitors.len() && s.monitors[m].dummy_window == s.focus),
        s.monitors.len() == 0 ==> s.focus == NONE || (exists|i: int| 0 <= i < s.windows.len() && s.windows[i].id == s.focus),
{
}

/// While a pointer button is held, a drag position is recorded.
pub proof fn held_button_has_position(s: Model)
    requires
        s.inv(),
        s.button_count > 0,
    ensures
        s.dnd_position is Some,
{
}

/// `a` is the window `b`, but for its stacking token and its saved region.
pub open spec fn same_but_saved(a: Window, b: Window) -> bool {
    a == Window { stacking_order: a.stacking_order, float_geometry: a.float_geometry, ..b }
}

/// Toggling the floating flag of the focused window twice, with the tiled
/// windows of its desktop in their columns, gives back every window as it was
/// displayed: same flags, same stored geometry, same columns for the tiled
/// ones. The toggled window may keep a later stacking token, as it was raised
/// while it floated, and a window that started out floating may keep its tile
/// column as its saved region; one that started out tiled is given back whole
/// but for its token.
pub proof fn floating_toggle_twice(s: Model)
    requires
        s.wf(),
        s.has_window(s.focus),
        match s.desktops[s.windows[s.window_index(s.focus)].desktop as int].monitor {
            Some(m) => s.windows == s.relayout_monitor(m as int),
            None => true,
        },
    ensures
        s.toggled().toggled().windows.len() == s.windows.len(),
        forall|j: int|
            0 <= j < s.windows.len() && j != s.window_index(s.focus) ==> #[trigger] s.toggled().toggled().windows[j]
                == s.windows[j],
        same_but_saved(s.toggled().toggled().windows[s.window_index(s.focus)], s.windows[s.window_index(s.focus)]),
        !s.windows[s.window_index(s.focus)].floating ==> same_but_stacking(
            s.toggled().toggled().windows[s.window_index(s.focus)],
            s.windows[s.window_index(s.focus)],
        ),
        s.toggled().toggled().monitors == s.monitors,
        s.toggled().toggled().desktops == s.desktops,
        s.toggled().toggled().focus == s.focus,
{
    reveal(Model::ids_apart);
    reveal(Model::tokens_ordered);
    let i = s.window_index(s.focus);
    let w = s.windows[i];
    let d = w.desktop;
    let t1 = s.toggled();
    let raise = !w.floating;
    let w1 = Window {
        floating: !w.floating,
        geometry: w.float_geometry,
        float_geometry: w.geometry,
        stacking_order: if raise && s.stacking_counter < u64::MAX { s.stacking_counter } else { w.stacking_order },
        ..w
    };
    let c1 = if raise { next_token(s.stacking_counter) } else { s.stacking_counter };
    let s1 = Model { windows: s.windows.update(i, w1), stacking_counter: c1, ..s };
    lemma_stacking_wf(s, c1);
    lemma_update_wf(s.with_stacking(c1), i, w1);
    assert(s1 == s.with_stacking(c1).with_windows(s.windows.update(i, w1)));
    assert(s1.inv());
    assert(s1.windows[i].id == s1.focus);
    assert(s1.has_window(s1.focus));
    lemma_index_of(s1, i);
    assert(s1.window_index(s1.focus) == i);
    let ws = s.windows;
    match s.desktops[d as int].monitor {
        Some(m) => {
            let m = m as int;
            let mg = s.monitors[m].geometry;
            lemma_desktop_monitor(s, d as int);
            assert(s.monitors[m].desktop == d);
            lemma_relayout_wf(s1, m);
            lemma_relayout_keeps(s1.windows, d, mg);
            assert(t1 == s1.with_windows(s1.relayout_monitor(m)));
            assert(t1.inv());
            assert(t1.windows[i].id == s.focus);
            lemma_index_of(t1, i);
            assert(t1.window_index(t1.focus) == i);
            let u = t1.windows[i];
            assert(u == laid_out(s1.windows, i, d, mg));
            assert(u.floating == !w.floating);
            assert(u.float_geometry == w.geometry);
            let raise2 = !u.floating;
            let w2 = Window {
                floating: !u.floating,
                geometry: u.float_geometry,
                float_geometry: u.geometry,
                stacking_order: if raise2 && t1.stacking_counter < u64::MAX { t1.stacking_counter } else { u.stacking_order },
                ..u
            };
            let c2 = if raise2 { next_token(t1.stacking_counter) } else { t1.stacking_counter };
            let s2 = Model { windows: t1.windows.update(i, w2), stacking_counter: c2, ..t1 };
            let t2 = s.toggled().toggled();
            assert(t2 == s2.with_windows(s2.relayout_monitor(m)));
            let ws2 = s2.windows;
            assert forall|j: int| 0 <= j < ws.len() implies is_tiled(#[trigger] ws2[j], d) == is_tiled(ws[j], d) by {
                if j != i {
                    assert(ws2[j] == t1.windows[j]);
                    assert(s1.windows[j] == ws[j]);
                }
            }
            lemma_count_same(ws2, ws, d);
            assert forall|j: int| 0 <= j < ws.len() implies #[trigger] t2.windows[j] == (if j == i {
                Window { stacking_order: t2.windows[j].stacking_order, float_geometry: t2.windows[j].float_geometry, ..ws[j] }
            } else {
                ws[j]
            }) by {
                lemma_count_same_prefix(ws2, ws, d, j);
                assert(t2.windows[j] == laid_out(ws2, j, d, mg));
                assert(ws[j] == laid_out(ws, j, d, mg));
                if j != i {
                    assert(ws2[j] == t1.windows[j]);
                    assert(t1.windows[j] == laid_out(s1.windows, j, d, mg));
                    assert(s1.windows[j] == ws[j]);
                }
            }
            if !w.floating {
                assert(!is_tiled(w1, d));
                assert(u == w1);
            }
        },
        None => {
            assert(t1 == s1);
            assert(t1.windows[i] == w1);
            lemma_index_of(t1, i);
        },
    }
}

/// A drag session ends with its last held button: when a release leaves no
/// button held, no pointer position and no snap candidate remain.
pub proof fn drag_session_ends(s: Model, x: i32, y: i32, detail: u8)
    ensures
        s.released(x, y, detail).button_count == 0 ==> s.released(x, y, detail).drag_idle(),
        s.released(x, y, detail).button_count > 0 ==> s.released(x, y, detail).dnd_position == s.dnd_position,
{
    reveal(Model::released);
    reveal(Model::snap_committed);
}

/// A window that starts to float through a toggle is stacked above every
/// other window, while stacking tokens are left.
pub proof fn floated_window_on_top(s: Model)
    requires
        s.wf(),
        s.has_window(s.focus),
        !s.windows[s.window_index(s.focus)].floating,
        s.stacking_counter < u64::MAX,
    ensures
        s.toggled().windows[s.window_index(s.focus)].floating,
        forall|j: int|
            0 <= j < s.windows.len() && j != s.window_index(s.focus) ==> #[trigger] s.toggled().windows[j].stacking_order
                < s.toggled().windows[s.window_index(s.focus)].stacking_order,
{
    reveal(Model::tokens_ordered);
    let i = s.window_index(s.focus);
    let w = s.windows[i];
    let w1 = Window {
        floating: true,
        geometry: w.float_geometry,
        float_geometry: w.geometry,
        stacking_order: s.stacking_counter,
        ..w
    };
    let s1 = Model { windows: s.windows.update(i, w1), stacking_counter: next_token(s.stacking_counter), ..s };
    match s.desktops[w.desktop as int].monitor {
        Some(m) => {
            lemma_relayout_keeps(s1.windows, s1.monitors[m as int].desktop, s1.monitors[m as int].geometry);
            assert(s.toggled() == s1.with_windows(s1.relayout_monitor(m as int)));
        },
        None => {},
    }
    assert forall|j: int| 0 <= j < s.windows.len() && j != i implies #[trigger] s.toggled().windows[j].stacking_order
        < s.toggled().windows[i].stacking_order by {
        assert(s1.windows[j] == s.windows[j]);
    }
}

/// The tiled windows of a laid-out desktop partition its monitor's width: in
/// table order, borders included, the first starts at the monitor's left edge,
/// each next one starts where the one before it ends, and the last ends at the
/// monitor's right edge.
pub proof fn layout_partitions_width(ws: Seq<Window>, d: usize, mg: Rect)
    requires
        mg.is_screen_rect(),
        count_tiled(ws, d) > 0,
    ensures
        ({
            let r = relayout(ws, d, mg);
            let n = count_tiled(ws, d) as int;
            let b = WINDOW_BORDER_WIDTH as int;
            &&& forall|i: int|
                0 <= i < ws.len() && is_tiled(ws[i], d) && count_tiled(ws.take(i), d) == 0 ==> (#[trigger] r[i]).geometry.x
                    == 0
            &&& forall|i: int, j: int|
                0 <= i < ws.len() && 0 <= j < ws.len() && is_tiled(ws[i], d) && is_tiled(ws[j], d) && count_tiled(
                    ws.take(j),
                    d,
                ) == count_tiled(ws.take(i), d) + 1 ==> #[trigger] r[j].geometry.x == #[trigger] r[i].geometry.x
                    + r[i].geometry.w + 2 * b
            &&& forall|i: int|
                0 <= i < ws.len() && is_tiled(ws[i], d) && count_tiled(ws.take(i), d) == n - 1 ==> (#[trigger] r[i]).geometry.x
                    + r[i].geometry.w + 2 * b == mg.w
        }),
{
    let r = relayout(ws, d, mg);
    let n = count_tiled(ws, d) as int;
    let w = mg.w as int;
    let h = mg.h as int;
    let b = WINDOW_BORDER_WIDTH as int;
    tiling_partition(w, n);
    assert forall|i: int| 0 <= i < ws.len() && is_tiled(ws[i], d) implies {
        let k = count_tiled(ws.take(i), d) as int;
        &&& 0 <= k < n
        &&& (#[trigger] r[i]).geometry.x == column_x(w, n, k)
        &&& r[i].geometry.x + r[i].geometry.w + 2 * b == column_x(w, n, k) + column_w(w, n, k)
    } by {
        lemma_count_bound(ws, d, i);
        let k = count_tiled(ws.take(i), d) as int;
        column_bounds(w, n, k);
        assert(r[i] == laid_out(ws, i, d, mg));
        assert(r[i].geometry == tile_rect(w, h, n, k));
    }
}

/// A newly enabled output gets a monitor at the end of the list, bound to the
/// first desktop that no monitor showed; the binding stays one to one.
pub proof fn enable_binds_first_free_desktop(s: Model, crtc: u32, g: Rect, sink: u32, d: int)
    requires
        s.wf(),
        g.is_screen_rect(),
        s.fresh_sink(sink),
        s.output_monitor(crtc) is None,
        0 <= d < s.desktops.len(),
        s.desktops[d].monitor is None,
        forall|e: int| 0 <= e < d ==> s.desktops[e].monitor is Some,
    ensures
        s.enabled(crtc, g, sink).monitors.len() == s.monitors.len() + 1,
        s.enabled(crtc, g, sink).monitors[s.monitors.len() as int] == (Monitor {
            crtc,
            geometry: g,
            desktop: d as usize,
            dummy_window: sink,
        }),
        s.enabled(crtc, g, sink).desktops[d].monitor == Some(s.monitors.len() as usize),
        s.enabled(crtc, g, sink).bound_both_ways(),
{
    reveal(Model::ids_apart);
    let c = s.free_desktop().unwrap();
    assert(s.free_desktop() is Some);
    assert(c == d) by {
        if c < d {
        } else if c > d {
        }
    }
    lemma_monitor_count(s, d);
    assert forall|m: int| 0 <= m < s.monitors.len() implies s.monitors[m].crtc != crtc by {
        if s.monitors[m].crtc == crtc {
            assert(exists|k: int| 0 <= k < s.monitors.len() && s.monitors[k].crtc == crtc);
        }
    }
    lemma_add_monitor_wf(s, crtc, g, d as usize, sink);
    let t = s.with_monitor(crtc, g, d as usize, sink);
    lemma_relayout_wf(t, s.monitors.len() as int);
}

} // verus!
