use vstd::prelude::*;

use crate::command::{combined_mask, modifiers_mask, Command, Modifier, MASK_BUTTON1, MASK_BUTTON3};
use crate::config::{spawns, HOT_KEY, MONITOR_UPDATE_PROG, NUM_DESKTOPS, WINDOW_BORDER_WIDTH};
use crate::geometry::{empty_rect, snap, snap_target, Rect};
use crate::layout::tile;
use crate::model::{
    map_requests, unmap_requests, is_tiled, tile_config, layout_actions, lemma_insert_pos, sort_stacking, stack_entries, tile_configs, float_config, full_config, lemma_drag_wf, lemma_binding_fits, Event, clamp_add, drag_geometry, is_mapped_on, lemma_add_monitor_wf, lemma_disable_wf, lemma_geometry_wf, lemma_monitor_count, lemma_stacking_wf, lemma_push_wf, lemma_remove_wf, lemma_relayout_keeps, first_interrupt, Outcome, hide_desktop, lemma_swap_wf, lemma_replace_wf, lemma_desktop_monitor, lemma_fallback_focusable, lemma_index_of, lemma_mapped_ids_members,
    lemma_update_wf, next_in_cycle, next_token, shown_on, binding, count_tiled, first_or, focus_actions, laid_out, lemma_count_bound, lemma_mapped_prefix,
    lemma_relayout_wf, lemma_take_succ, mapped_ids, relayout, Action, Desktop, Model, Monitor, Stack,
    Window, FOCUSED_BORDER, NONE, UNFOCUSED_BORDER,
};

verus! {

/// The window manager's engine: the state that the event loop owns, and the
/// reactions to display-server events and to queued commands. Each reaction
/// appends to `out` the requests that the display server must carry out.
pub struct Daily {
    keybind: Vec<(u16, u8, Command)>,
    windows: Vec<Window>,
    monitors: Vec<Monitor>,
    desktops: Vec<Desktop>,
    focus: u32,
    dnd_position: Option<(i32, i32)>,
    button_count: usize,
    preview_window: u32,
    preview_geometry: Rect,
    stacking_counter: u64,
}

impl View for Daily {
    type V = Model;

    closed spec fn view(&self) -> Model {
        Model {
            keybind: self.keybind@,
            windows: self.windows@,
            monitors: self.monitors@,
            desktops: self.desktops@,
            focus: self.focus,
            dnd_position: self.dnd_position,
            button_count: self.button_count,
            preview_window: self.preview_window,
            preview_geometry: self.preview_geometry,
            stacking_counter: self.stacking_counter,
        }
    }
}

/// Sorts windows by stacking token, keeping the given order among equal tokens.
fn sort_by_stacking(v: Vec<(u64, Window)>) -> (r: Vec<(u64, Window)>)
    ensures
        r@ == sort_stacking(v@),
        forall|i: int, j: int| 0 <= i < j < r@.len() ==> r@[i].0 <= r@[j].0,
{
    let mut out: Vec<(u64, Window)> = Vec::new();
    let mut i: usize = 0;
    while i < v.len()
        invariant
            i <= v@.len(),
            out@ == sort_stacking(v@.take(i as int)),
            forall|a: int, b: int| 0 <= a < b < out@.len() ==> out@[a].0 <= out@[b].0,
        decreases v@.len() - i,
    {
        let e = v[i];
        let mut p: usize = 0;
        while p < out.len() && out[p].0 <= e.0
            invariant
                p <= out@.len(),
                forall|a: int| 0 <= a < p ==> out@[a].0 <= e.0,
            decreases out@.len() - p,
        {
            p = p + 1;
        }
        let ghost before = out@;
        proof {
            lemma_insert_pos(before, e.0, p as int);
            lemma_take_succ(v@, i as int);
        }
        out.insert(p, e);
        assert forall|a: int, b: int| 0 <= a < b < out@.len() implies out@[a].0 <= out@[b].0 by {
            if b < p {
            } else if b == p {
            } else if a < p {
                assert(out@[b] == before[b - 1]);
            } else if a == p {
                assert(out@[b] == before[b - 1]);
            } else {
                assert(out@[b] == before[b - 1]);
                assert(out@[a] == before[a - 1]);
            }
        }
        i = i + 1;
    }
    assert(v@.take(i as int) == v@);
    out
}

impl Daily {
    /// A state with no window, no monitor, no binding, and `NUM_DESKTOPS`
    /// desktops, none shown; `preview_window` is the window that shows snap targets.
    pub fn new(preview_window: u32) -> (r: Daily)
        ensures
            r@.wf(),
            r@.keybind.len() == 0,
            r@.windows.len() == 0,
            r@.monitors.len() == 0,
            r@.desktops.len() == NUM_DESKTOPS,
            forall|d: int| 0 <= d < NUM_DESKTOPS ==> (#[trigger] r@.desktops[d]).monitor is None,
            r@.focus == NONE,
            r@.dnd_position is None,
            r@.button_count == 0,
            r@.preview_window == preview_window,
            r@.preview_geometry == empty_rect(),
            r@.stacking_counter == 0,
    {
        proof {
            reveal(Model::ids_apart);
            reveal(Model::tokens_ordered);
        }
        let mut desktops: Vec<Desktop> = Vec::new();
        let mut i: usize = 0;
        while i < NUM_DESKTOPS
            invariant
                i <= NUM_DESKTOPS,
                desktops@.len() == i,
                forall|d: int| 0 <= d < i ==> (#[trigger] desktops@[d]).monitor is None,
            decreases NUM_DESKTOPS - i,
        {
            desktops.push(Desktop { monitor: None });
            i = i + 1;
        }
        Daily {
            keybind: Vec::new(),
            windows: Vec::new(),
            monitors: Vec::new(),
            desktops,
            focus: NONE,
            dnd_position: None,
            button_count: 0,
            preview_window,
            preview_geometry: Rect::empty(),
            stacking_counter: 0,
        }
    }

    /// Binds the key `keycode`, pressed with the keys `modifiers` held, to
    /// `cmd`, replacing an earlier binding of the same combination.
    pub fn bind_key(&mut self, modifiers: &[Modifier], keycode: u8, cmd: Command)
        requires
            old(self)@.wf(),
            cmd.fits_desktops(NUM_DESKTOPS as nat),
        ensures
            final(self)@ == (Model {
                keybind: old(self)@.keybind.push((modifiers_mask(modifiers@), keycode, cmd)),
                ..old(self)@
            }),
            final(self)@.wf(),
            binding(final(self)@.keybind, modifiers_mask(modifiers@), keycode) == Some(cmd),
    {
        proof {
            reveal(Model::ids_apart);
            reveal(Model::tokens_ordered);
        }
        let modmask = combined_mask(modifiers);
        self.keybind.push((modmask, keycode, cmd));
        assert(self@.keybind.drop_last() == old(self)@.keybind);
        assert forall|i: int| 0 <= i < self@.keybind.len() implies (#[trigger] self@.keybind[i]).2.fits_desktops(
            NUM_DESKTOPS as nat,
        ) by {
            if i < old(self)@.keybind.len() {
                assert(self@.keybind[i] == old(self)@.keybind[i]);
            }
        }
        assert(self@.windows == old(self)@.windows);
        assert(self@.monitors == old(self)@.monitors);
        assert(self@.focusable(self@.focus) == old(self)@.focusable(old(self)@.focus));
    }

    /// The command bound to the key `detail` pressed with the modifier state `state`.
    pub fn lookup(&self, state: u16, detail: u8) -> (r: Option<Command>)
        ensures
            r == binding(self@.keybind, state, detail),
    {
        let mut i: usize = self.keybind.len();
        assert(self@.keybind.take(i as int) == self@.keybind);
        while i > 0
            invariant
                i <= self@.keybind.len(),
                binding(self@.keybind, state, detail) == binding(self@.keybind.take(i as int), state, detail),
            decreases i,
        {
            let entry = &self.keybind[i - 1];
            proof {
                lemma_take_succ(self@.keybind, i - 1);
            }
            if entry.0 == state && entry.1 == detail {
                return Some(entry.2.duplicate());
            }
            i = i - 1;
        }
        None
    }

    /// The identifier of the window that holds the input focus, of a monitor's
    /// focus window, or `NONE`.
    pub fn focus(&self) -> (r: u32)
        ensures
            r == self@.focus,
    {
        self.focus
    }

    /// The window that shows snap targets.
    pub fn preview_window(&self) -> (r: u32)
        ensures
            r == self@.preview_window,
    {
        self.preview_window
    }

    /// Index of the window `id` in the table.
    pub fn find_window(&self, id: u32) -> (r: Option<usize>)
        ensures
            match r {
                Some(i) => i < self@.windows.len() && self@.windows[i as int].id == id,
                None => !self@.has_window(id),
            },
    {
        let mut i: usize = 0;
        while i < self.windows.len()
            invariant
                i <= self@.windows.len(),
                forall|j: int| 0 <= j < i ==> self@.windows[j].id != id,
            decreases self@.windows.len() - i,
        {
            if self.windows[i].id == id {
                return Some(i);
            }
            i = i + 1;
        }
        None
    }

    /// Whether the window `id` is managed.
    pub fn is_managed(&self, id: u32) -> (r: bool)
        ensures
            r == self@.has_window(id),
    {
        self.find_window(id).is_some()
    }

    /// Whether `id` is the focus window of a monitor.
    pub fn is_sink(&self, id: u32) -> (r: bool)
        ensures
            r == self@.is_sink(id),
    {
        self.find_sink(id).is_some()
    }

    /// The first monitor whose focus window is `id`.
    fn find_sink(&self, id: u32) -> (r: Option<usize>)
        ensures
            match r {
                Some(m) => m < self@.monitors.len() && self@.monitors[m as int].dummy_window == id
                    && forall|j: int| 0 <= j < m ==> self@.monitors[j].dummy_window != id,
                None => !self@.is_sink(id),
            },
    {
        let mut i: usize = 0;
        while i < self.monitors.len()
            invariant
                i <= self@.monitors.len(),
                forall|j: int| 0 <= j < i ==> self@.monitors[j].dummy_window != id,
            decreases self@.monitors.len() - i,
        {
            if self.monitors[i].dummy_window == id {
                return Some(i);
            }
            i = i + 1;
        }
        None
    }

    /// The monitor that holds the focus.
    pub fn focused_monitor(&self) -> (r: Option<usize>)
        requires
            self@.wf(),
        ensures
            r == self@.focused_monitor(),
            match r {
                Some(m) => m < self@.monitors.len(),
                None => true,
            },
    {
        match self.find_window(self.focus) {
            Some(i) => {
                assert(self@.window_index(self.focus) == i);
                let d = self.windows[i].desktop;
                self.desktops[d].monitor
            },
            None => {
                let r = self.find_sink(self.focus);
                if let Some(m) = r {
                    let ghost k = self@.sink_monitor(self.focus);
                    assert(self@.is_sink(self.focus));
                    assert(k == m as int) by {
                        if k < m {
                        } else if k > m {
                        }
                    }
                }
                r
            },
        }
    }

    /// Moves the input focus to `focus`.
    fn change_focus(&mut self, focus: u32, out: &mut Vec<Action>)
        requires
            old(self)@.inv(),
            old(self)@.focusable(focus),
        ensures
            final(self)@ == old(self)@.with_focus(focus),
            final(self)@.inv(),
            final(out)@ == old(out)@ + focus_actions(old(self)@, focus),
    {
        proof {
            reveal(Model::ids_apart);
            reveal(Model::tokens_ordered);
        }
        let old_focus = self.focus;
        if old_focus == focus {
            assert(old(out)@ + seq![] == old(out)@);
            return;
        }
        self.focus = focus;
        let ghost before = out@;
        if self.is_managed(old_focus) {
            out.push(Action::SetBorderColor { window: old_focus, pixel: UNFOCUSED_BORDER });
        }
        if self.is_managed(focus) {
            out.push(Action::SetBorderColor { window: focus, pixel: FOCUSED_BORDER });
        }
        out.push(Action::SetInputFocus(focus));
        assert(out@ =~= before + focus_actions(old(self)@, focus));
    }

    /// The identifiers of the windows shown on desktop `desktop`, in table order.
    pub fn mapped_windows(&self, desktop: usize) -> (r: Vec<u32>)
        ensures
            r@ == mapped_ids(self@.windows, desktop),
    {
        let mut r: Vec<u32> = Vec::new();
        let mut i: usize = 0;
        while i < self.windows.len()
            invariant
                i <= self@.windows.len(),
                r@ == mapped_ids(self@.windows.take(i as int), desktop),
            decreases self@.windows.len() - i,
        {
            proof {
                lemma_take_succ(self@.windows, i as int);
            }
            if self.windows[i].desktop == desktop && self.windows[i].mapped {
                r.push(self.windows[i].id);
            }
            i = i + 1;
        }
        assert(self@.windows.take(i as int) == self@.windows);
        r
    }

    /// The first window shown on desktop `desktop`, or `fallback`.
    fn first_or(&self, desktop: usize, fallback: u32) -> (r: u32)
        ensures
            r == first_or(self@.windows, desktop, fallback),
    {
        let mut i: usize = 0;
        while i < self.windows.len()
            invariant
                i <= self@.windows.len(),
                mapped_ids(self@.windows.take(i as int), desktop).len() == 0,
            decreases self@.windows.len() - i,
        {
            proof {
                lemma_take_succ(self@.windows, i as int);
            }
            if self.windows[i].desktop == desktop && self.windows[i].mapped {
                proof {
                    let t = self@.windows.take(i + 1);
                    assert(t.last() == self@.windows[i as int]);
                    assert(mapped_ids(t, desktop) == mapped_ids(t.drop_last(), desktop).push(t.last().id));
                    assert(mapped_ids(t, desktop) =~= seq![self@.windows[i as int].id]);
                    lemma_mapped_prefix(self@.windows, desktop, i + 1);
                    assert(mapped_ids(self@.windows, desktop).take(1)[0] == mapped_ids(self@.windows, desktop)[0]);
                }
                return self.windows[i].id;
            }
            i = i + 1;
        }
        assert(self@.windows.take(i as int) == self@.windows);
        fallback
    }

    /// Lays out the windows of the desktop on monitor `monitor`: the tiled ones
    /// side by side in table order, then the floating ones and then the
    /// fullscreen ones in stacking order, and the preview window above them all.
    #[verifier::rlimit(40)]
    pub fn update_layout(&mut self, monitor: usize, out: &mut Vec<Action>)
        requires
            old(self)@.inv(),
            monitor < old(self)@.monitors.len(),
        ensures
            final(self)@ == old(self)@.with_windows(old(self)@.relayout_monitor(monitor as int)),
            final(self)@.inv(),
            final(out)@ == old(out)@ + final(self)@.layout_of(monitor as int),
            old(out)@.is_prefix_of(final(out)@),
    {
        proof {
            lemma_relayout_wf(self@, monitor as int);
        }
        let ghost ws0 = self@.windows;
        let desktop = self.monitors[monitor].desktop;
        let mon_geo = self.monitors[monitor].geometry;
        let ghost ws1 = relayout(ws0, desktop, mon_geo);
        let bwidth = crate::config::WINDOW_BORDER_WIDTH;
        let ghost out0 = out@;
        proof {
            lemma_relayout_keeps(ws0, desktop, mon_geo);
        }

        // tiled windows
        let mut n: usize = 0;
        let mut i: usize = 0;
        while i < self.windows.len()
            invariant
                self@.windows == ws0,
                i <= ws0.len(),
                n == count_tiled(ws0.take(i as int), desktop),
                n <= i,
            decreases ws0.len() - i,
        {
            proof {
                lemma_take_succ(ws0, i as int);
            }
            let w = self.windows[i];
            if w.desktop == desktop && w.mapped && !w.floating && !w.fullscreen {
                n = n + 1;
            }
            i = i + 1;
        }
        assert(ws0.take(i as int) == ws0);
        let mut k: usize = 0;
        i = 0;
        assert(out@ =~= out0 + tile_configs(ws1.take(0), desktop, mon_geo));
        while i < self.windows.len()
            invariant
                self@.windows.len() == ws0.len(),
                ws1.len() == ws0.len(),
                ws1 == relayout(ws0, desktop, mon_geo),
                bwidth == WINDOW_BORDER_WIDTH,
                i <= ws0.len(),
                n == count_tiled(ws0, desktop),
                k == count_tiled(ws0.take(i as int), desktop),
                mon_geo == old(self)@.monitors[monitor as int].geometry,
                mon_geo.is_screen_rect(),
                desktop == old(self)@.monitors[monitor as int].desktop,
                forall|j: int| 0 <= j < ws0.len() ==> is_tiled(#[trigger] ws1[j], desktop) == is_tiled(ws0[j], desktop),
                forall|j: int| 0 <= j < i ==> self@.windows[j] == ws1[j],
                forall|j: int| i <= j < ws0.len() ==> self@.windows[j] == ws0[j],
                self@ == old(self)@.with_windows(self@.windows),
                out@ == out0 + tile_configs(ws1.take(i as int), desktop, mon_geo),
            decreases ws0.len() - i,
        {
            proof {
                lemma_take_succ(ws0, i as int);
                lemma_take_succ(ws1, i as int);
                lemma_count_bound(ws0, desktop, i as int);
            }
            let mut w = self.windows[i];
            if w.desktop == desktop && w.mapped && !w.floating && !w.fullscreen {
                let geo = tile(mon_geo.w, mon_geo.h, n, k);
                w.geometry = geo;
                self.windows.set(i, w);
                assert(w == ws1[i as int]);
                let a = Action::Configure {
                    window: w.id,
                    geometry: Some(Rect { x: mon_geo.x + geo.x, y: mon_geo.y + geo.y, w: geo.w, h: geo.h }),
                    border_width: Some(bwidth),
                    stack: Some(Stack::Above),
                };
                assert(a == tile_config(ws1[i as int], mon_geo));
                out.push(a);
                k = k + 1;
                proof {
                    let t = ws1.take(i as int + 1);
                    assert(t.last() == ws1[i as int]);
                    assert(tile_configs(t, desktop, mon_geo) == tile_configs(t.drop_last(), desktop, mon_geo).push(tile_config(ws1[i as int], mon_geo)));
                    assert(out@ =~= out0 + tile_configs(t, desktop, mon_geo));
                }
            } else {
                proof {
                    let t = ws1.take(i as int + 1);
                    assert(t.last() == ws1[i as int]);
                    assert(tile_configs(t, desktop, mon_geo) == tile_configs(t.drop_last(), desktop, mon_geo));
                }
            }
            i = i + 1;
        }
        assert(self@.windows =~= ws1);
        assert(ws1.take(i as int) == ws1);
        let ghost after_tiles = out@;

        // floating windows, then fullscreen windows, lowest stacking order first
        let mut floating: Vec<(u64, Window)> = Vec::new();
        let mut fullscreen: Vec<(u64, Window)> = Vec::new();
        i = 0;
        while i < self.windows.len()
            invariant
                self@.windows == ws1,
                i <= ws1.len(),
                floating@ == stack_entries(ws1.take(i as int), desktop, false),
                fullscreen@ == stack_entries(ws1.take(i as int), desktop, true),
            decreases ws1.len() - i,
        {
            proof {
                lemma_take_succ(ws1, i as int);
            }
            let w = self.windows[i];
            if w.desktop == desktop && w.mapped {
                if w.fullscreen {
                    fullscreen.push((w.stacking_order, w));
                } else if w.floating {
                    floating.push((w.stacking_order, w));
                }
            }
            i = i + 1;
        }
        assert(ws1.take(i as int) == ws1);
        let floating = sort_by_stacking(floating);
        let fullscreen = sort_by_stacking(fullscreen);
        let ghost fl = floating@.map_values(|e: (u64, Window)| float_config(e.1, mon_geo));
        let ghost fu = fullscreen@.map_values(|e: (u64, Window)| full_config(e.1, mon_geo));
        i = 0;
        while i < floating.len()
            invariant
                i <= floating@.len(),
                bwidth == WINDOW_BORDER_WIDTH,
                fl == floating@.map_values(|e: (u64, Window)| float_config(e.1, mon_geo)),
                out@ == after_tiles + fl.take(i as int),
            decreases floating@.len() - i,
        {
            let w = floating[i].1;
            out.push(
                Action::Configure {
                    window: w.id,
                    geometry: Some(
                        Rect {
                            x: sat_add(mon_geo.x, w.geometry.x as i64),
                            y: sat_add(mon_geo.y, w.geometry.y as i64),
                            w: w.geometry.w,
                            h: w.geometry.h,
                        },
                    ),
                    border_width: Some(bwidth),
                    stack: Some(Stack::Above),
                },
            );
            proof {
                assert(fl[i as int] == float_config(floating@[i as int].1, mon_geo));
                assert(fl.take(i as int + 1) =~= fl.take(i as int).push(fl[i as int]));
                assert(out@ =~= after_tiles + fl.take(i as int + 1));
            }
            i = i + 1;
        }
        assert(fl.take(i as int) == fl);
        let ghost after_floating = out@;
        i = 0;
        while i < fullscreen.len()
            invariant
                i <= fullscreen@.len(),
                fu == fullscreen@.map_values(|e: (u64, Window)| full_config(e.1, mon_geo)),
                out@ == after_floating + fu.take(i as int),
            decreases fullscreen@.len() - i,
        {
            out.push(
                Action::Configure {
                    window: fullscreen[i].1.id,
                    geometry: Some(mon_geo),
                    border_width: Some(0),
                    stack: Some(Stack::Above),
                },
            );
            proof {
                assert(fu[i as int] == full_config(fullscreen@[i as int].1, mon_geo));
                assert(fu.take(i as int + 1) =~= fu.take(i as int).push(fu[i as int]));
                assert(out@ =~= after_floating + fu.take(i as int + 1));
            }
            i = i + 1;
        }
        assert(fu.take(i as int) == fu);
        out.push(
            Action::Configure {
                window: self.preview_window,
                geometry: None,
                border_width: None,
                stack: Some(Stack::Above),
            },
        );
        proof {
            assert(out@ =~= out0 + layout_actions(ws1, desktop, mon_geo, self.preview_window));
            assert(out0.is_prefix_of(out@)) by {
                assert(out0 =~= out@.subrange(0, out0.len() as int));
            }
        }
    }
}

/// `a + d`, saturated at the bounds of `i32`.
pub fn sat_add(a: i32, d: i64) -> (r: i32)
    requires
        -0x1_0000_0000 <= d <= 0x1_0000_0000,
    ensures
        r == clamp_add(a as int, d as int),
{
    let s = a as i64 + d;
    if s > i32::MAX as i64 {
        i32::MAX
    } else if s < i32::MIN as i64 {
        i32::MIN
    } else {
        s as i32
    }
}

impl Daily {
    /// Hands out the next stacking token, above every token in use, if the
    /// counter has one left.
    fn take_token(&mut self) -> (r: Option<u64>)
        requires
            old(self)@.inv(),
        ensures
            final(self)@ == old(self)@.with_stacking(next_token(old(self)@.stacking_counter)),
            final(self)@.inv(),
            old(self)@.wf() ==> final(self)@.wf(),
            forall|j: int| 0 <= j < old(self)@.windows.len() ==> old(self)@.windows[j].stacking_order < old(self)@.stacking_counter,
            r == if old(self)@.stacking_counter < u64::MAX { Some(old(self)@.stacking_counter) } else { None },
    {
        proof {
            lemma_stacking_wf(self@, next_token(self@.stacking_counter));
        }
        if self.stacking_counter < u64::MAX {
            let t = self.stacking_counter;
            self.stacking_counter = t + 1;
            Some(t)
        } else {
            None
        }
    }

    /// Flips the focused window between tiled and floating; a window that
    /// starts to float is raised, and its monitor is laid out again.
    #[verifier::rlimit(40)]
    pub fn toggle_floating(&mut self, out: &mut Vec<Action>)
        requires
            old(self)@.wf(),
        ensures
            final(self)@ == old(self)@.toggled(),
            final(self)@.wf(),
            final(out)@ == old(out)@ + match old(self)@.window_monitor(old(self)@.focus) {
                Some(m) => final(self)@.layout_of(m as int),
                None => seq![],
            },
            old(out)@.is_prefix_of(final(out)@),
    {
        proof {
            reveal(Model::ids_apart);
            reveal(Model::tokens_ordered);
        }
        if let Some(i) = self.find_window(self.focus) {
            proof {
                lemma_index_of(self@, i as int);
            }
            let mut w = self.windows[i];
            let raise = !w.floating;
            let saved = w.float_geometry;
            w.float_geometry = w.geometry;
            w.geometry = saved;
            w.floating = raise;
            if raise {
                if let Some(t) = self.take_token() {
                    w.stacking_order = t;
                }
            }
            proof {
                lemma_update_wf(self@, i as int, w);
            }
            self.windows.set(i, w);
            proof {
                assert(self@.wf());
            }
            if let Some(m) = self.desktops[w.desktop].monitor {
                proof {
                    lemma_desktop_monitor(self@, w.desktop as int);
                }
                self.update_layout(m, out);
            }
        } else {
            assert(old(out)@.is_prefix_of(out@)) by {
                assert(out@.take(old(out)@.len() as int) =~= out@);
            }
        }
        assert(out@ =~= old(out)@ + match old(self)@.window_monitor(old(self)@.focus) {
            Some(m) => self@.layout_of(m as int),
            None => seq![],
        });
    }

    /// Moves the focus to the next monitor, cyclically: to the first window
    /// shown there, or to the monitor's focus window.
    pub fn focus_next_monitor(&mut self, out: &mut Vec<Action>)
        requires
            old(self)@.wf(),
        ensures
            final(self)@.wf(),
            old(self)@.monitors.len() == 0 ==> final(self)@ == old(self)@ && final(out)@ == old(out)@,
            old(self)@.monitors.len() > 0 ==> {
                let f = old(self)@.fallback_focus(old(self)@.next_monitor());
                &&& final(self)@ == old(self)@.with_focus(f)
                &&& final(out)@ == old(out)@ + focus_actions(old(self)@, f)
            },
    {
        if self.monitors.len() == 0 {
            return;
        }
        let next = match self.focused_monitor() {
            Some(i) => (i + 1) % self.monitors.len(),
            None => 0,
        };
        let desktop = self.monitors[next].desktop;
        let f = self.first_or(desktop, self.monitors[next].dummy_window);
        proof {
            lemma_fallback_focusable(self@, next as int);
        }
        self.change_focus(f, out);
    }

    /// Moves the focus to the window after the focused one among those shown on
    /// its desktop, cyclically; nothing happens where fewer than two are shown.
    pub fn focus_next_window(&mut self, out: &mut Vec<Action>)
        requires
            old(self)@.wf(),
        ensures
            final(self)@.wf(),
            match old(self)@.next_window_focus() {
                Some(f) => final(self)@ == old(self)@.with_focus(f) && final(out)@ == old(out)@
                    + focus_actions(old(self)@, f),
                None => final(self)@ == old(self)@ && final(out)@ == old(out)@,
            },
    {
        proof {
            reveal(Model::ids_apart);
            reveal(Model::tokens_ordered);
        }
        let i = match self.find_window(self.focus) {
            Some(i) => i,
            None => return ,
        };
        proof {
            lemma_index_of(self@, i as int);
        }
        let id = self.windows[i].id;
        let desktop = self.windows[i].desktop;
        let fallback = match self.desktops[desktop].monitor {
            Some(m) => {
                proof {
                    lemma_desktop_monitor(self@, desktop as int);
                }
                self.monitors[m].dummy_window
            },
            None => id,
        };
        let ids = self.mapped_windows(desktop);
        if ids.len() <= 1 {
            return;
        }
        let mut k: usize = 0;
        while k < ids.len() && ids[k] != id
            invariant
                k <= ids@.len(),
                forall|j: int| 0 <= j < k ==> ids@[j] != id,
            decreases ids@.len() - k,
        {
            k = k + 1;
        }
        let next = if k < ids.len() {
            proof {
                let c = choose|c: int| 0 <= c < ids@.len() && ids@[c] == id && forall|j: int| 0 <= j < c ==> ids@[j] != id;
                assert(ids@[k as int] == id);
                assert(c == k) by {
                    if c < k {
                    } else if c > k {
                    }
                }
            }
            ids[(k + 1) % ids.len()]
        } else {
            fallback
        };
        proof {
            assert(next == next_in_cycle(ids@, id, self@.stay_or_sink(desktop, id)));
            lemma_mapped_ids_members(self@.windows, desktop);
            if k < ids@.len() {
                let c = (k as int + 1) % (ids@.len() as int);
                assert(shown_on(self@.windows, desktop, ids@[c]));
            }
        }
        self.change_focus(next, out);
    }
}

impl Daily {
    /// The monitor that commands act on: the focused one, else the first.
    fn acting_monitor(&self) -> (r: usize)
        requires
            self@.wf(),
            self@.monitors.len() > 0,
        ensures
            r == self@.acting_monitor(),
            r < self@.monitors.len(),
    {
        match self.focused_monitor() {
            Some(m) => m,
            None => 0,
        }
    }

    /// Brings desktop `target` to the focused monitor; see `Model::switched`.
    pub fn switch_desktop(&mut self, target: usize, out: &mut Vec<Action>)
        requires
            old(self)@.wf(),
            target < NUM_DESKTOPS,
        ensures
            final(self)@ == old(self)@.switched(target),
            final(self)@.wf(),
            final(out)@ == old(out)@ + old(self)@.switch_requests(target),
            old(out)@.is_prefix_of(final(out)@),
    {
        if self.desktops[target].monitor.is_some() {
            self.swap_desktops(target, out);
        } else if self.monitors.len() == 0 {
            assert(out@.take(old(out)@.len() as int) =~= out@);
            assert(out@ =~= old(out)@ + seq![]);
        } else {
            self.replace_desktop(target, out);
        }
    }

    #[verifier::rlimit(40)]
    fn swap_desktops(&mut self, target: usize, out: &mut Vec<Action>)
        requires
            old(self)@.wf(),
            target < NUM_DESKTOPS,
            old(self)@.desktops[target as int].monitor is Some,
        ensures
            final(self)@ == old(self)@.switched(target),
            final(self)@.wf(),
            final(out)@ == old(out)@ + old(self)@.switch_requests(target),
            old(out)@.is_prefix_of(final(out)@),
    {
        let ghost s = self@;
        proof {
            lemma_desktop_monitor(s, target as int);
        }
        let monitor_a = self.desktops[target].monitor.unwrap();
        let monitor_b = self.acting_monitor();
        let desktop_b = self.monitors[monitor_b].desktop;

        let mut ma = self.monitors[monitor_a];
        ma.desktop = desktop_b;
        self.monitors.set(monitor_a, ma);
        let mut mb = self.monitors[monitor_b];
        mb.desktop = target;
        self.monitors.set(monitor_b, mb);
        self.desktops.set(target, Desktop { monitor: Some(monitor_b) });
        self.desktops.set(desktop_b, Desktop { monitor: Some(monitor_a) });
        proof {
            lemma_swap_wf(s, target);
            assert(self@ == s.swap_bound(target));
        }
        let ghost o0 = out@;
        self.update_layout(monitor_a, out);
        let ghost t1 = self@;
        self.update_layout(monitor_b, out);
        let ghost t2 = self@;
        let f = self.first_or(target, self.monitors[monitor_b].dummy_window);
        proof {
            lemma_fallback_focusable(self@, monitor_b as int);
        }
        self.change_focus(f, out);
        proof {
            assert(out@ =~= o0 + (t1.layout_of(monitor_a as int) + t2.layout_of(monitor_b as int) + focus_actions(t2, f)));
        }
    }

    #[verifier::rlimit(40)]
    fn replace_desktop(&mut self, target: usize, out: &mut Vec<Action>)
        requires
            old(self)@.wf(),
            target < NUM_DESKTOPS,
            old(self)@.desktops[target as int].monitor is None,
            old(self)@.monitors.len() > 0,
        ensures
            final(self)@ == old(self)@.switched(target),
            final(self)@.wf(),
            final(out)@ == old(out)@ + old(self)@.switch_requests(target),
            old(out)@.is_prefix_of(final(out)@),
    {
        let ghost s = self@;
        let ghost out0 = out@;
        let monitor = self.acting_monitor();
        let current = self.monitors[monitor].desktop;
        self.hide_windows(current, out);
        let ghost o1 = out@;
        self.show_windows(target, out);
        proof {
            assert(o1.is_prefix_of(out@)) by {
                assert(o1 =~= out@.subrange(0, o1.len() as int));
            }
            lemma_prefix_trans(out0, o1, out@);
        }
        let mut m = self.monitors[monitor];
        m.desktop = target;
        self.monitors.set(monitor, m);
        self.desktops.set(target, Desktop { monitor: Some(monitor) });
        self.desktops.set(current, Desktop { monitor: None });
        proof {
            lemma_replace_wf(s, target);
            assert(self@ == s.replace_bound(target));
        }
        self.update_layout(monitor, out);
        let ghost t1 = self@;
        let f = self.first_or(target, self.monitors[monitor].dummy_window);
        proof {
            lemma_fallback_focusable(self@, monitor as int);
        }
        self.change_focus(f, out);
        proof {
            assert(out@ =~= out0 + (unmap_requests(mapped_ids(s.windows, current)) + map_requests(
                mapped_ids(hide_desktop(s.windows, current), target),
            ) + t1.layout_of(monitor as int) + focus_actions(t1, f)));
        }
    }
}

impl Daily {
    /// Sends the focused window to desktop `target`; see `Model::moved`.
    #[verifier::rlimit(40)]
    pub fn move_window(&mut self, target: usize, out: &mut Vec<Action>)
        requires
            old(self)@.wf(),
            target < NUM_DESKTOPS,
        ensures
            final(self)@ == old(self)@.moved(target),
            final(self)@.wf(),
            final(out)@ == old(out)@ + old(self)@.move_requests(target),
            old(out)@.is_prefix_of(final(out)@),
    {
        let ghost s = self@;
        proof {
            assert(out@.take(out@.len() as int) =~= out@);
        }
        let i = match self.find_window(self.focus) {
            Some(i) => i,
            None => return ,
        };
        proof {
            lemma_index_of(s, i as int);
        }
        let mut w = self.windows[i];
        let old_desktop = w.desktop;
        let old_monitor = match self.desktops[old_desktop].monitor {
            Some(m) => m,
            None => return ,
        };
        proof {
            lemma_desktop_monitor(s, old_desktop as int);
        }
        let new_monitor = self.desktops[target].monitor;
        if new_monitor.is_some() {
            proof {
                lemma_desktop_monitor(s, target as int);
            }
        }
        w.desktop = target;
        if new_monitor.is_none() {
            w.ignore_unmap_notify = true;
        }
        proof {
            lemma_update_wf(s, i as int, w);
        }
        self.windows.set(i, w);
        let ghost t0 = self@;
        let ghost o0 = out@;
        if new_monitor.is_none() {
            out.push(Action::UnmapWindow(w.id));
            let f = self.first_or(old_desktop, self.monitors[old_monitor].dummy_window);
            proof {
                lemma_fallback_focusable(self@, old_monitor as int);
            }
            self.change_focus(f, out);
        }
        let ghost o1 = out@;
        self.update_layout(old_monitor, out);
        let ghost t2 = self@;
        if let Some(nm) = new_monitor {
            self.update_layout(nm, out);
        }
        proof {
            assert(o1 =~= o0 + if new_monitor is None {
                seq![Action::UnmapWindow(w.id)] + focus_actions(t0, t2.focus)
            } else {
                seq![]
            });
            assert(out@ =~= o0 + ((if new_monitor is None {
                seq![Action::UnmapWindow(w.id)] + focus_actions(t0, t2.focus)
            } else {
                seq![]
            }) + t2.layout_of(old_monitor as int) + match new_monitor {
                Some(n) => self@.layout_of(n as int),
                None => seq![],
            }));
        }
    }

    /// Runs one command other than `Exit` and `Restart`.
    fn run_command(&mut self, cmd: Command, out: &mut Vec<Action>)
        requires
            old(self)@.wf(),
            cmd.fits_desktops(NUM_DESKTOPS as nat),
        ensures
            final(self)@ == old(self)@.after_command(cmd),
            final(self)@.wf(),
            final(out)@ == old(out)@ + old(self)@.command_requests(cmd),
            old(out)@.is_prefix_of(final(out)@),
    {
        proof {
            reveal(Model::after_command);
            reveal(Model::command_requests);
            assert(out@.take(out@.len() as int) =~= out@);
        }
        match cmd {
            Command::SpawnProcess(cmdline) => {
                out.push(Action::Spawn(cmdline));
                assert(out@.take(old(out)@.len() as int) =~= old(out)@);
                assert(out@ =~= old(out)@ + seq![Action::Spawn(cmdline)]);
            },
            Command::FocusNextMonitor => {
                self.focus_next_monitor(out);
                assert(out@.take(old(out)@.len() as int) =~= old(out)@);
            },
            Command::FocusNextWindow => {
                self.focus_next_window(out);
                assert(out@.take(old(out)@.len() as int) =~= old(out)@);
            },
            Command::SwitchDesktop(d) => {
                self.switch_desktop(d, out);
            },
            Command::MoveWindow(d) => {
                self.move_window(d, out);
            },
            Command::ToggleFloating => {
                self.toggle_floating(out);
            },
            _ => {
                assert(out@ =~= old(out)@ + seq![]);
            },
        }
    }

    /// Runs the queued commands in order and empties the queue. `Exit` and
    /// `Restart` end the run, and the loop, at once; `SpawnProcess` asks for
    /// its command line to be run.
    #[verifier::rlimit(40)]
    pub fn process_commands(&mut self, cmdq: &mut Vec<Command>, out: &mut Vec<Action>) -> (r: Outcome)
        requires
            old(self)@.wf(),
            forall|i: int| 0 <= i < old(cmdq)@.len() ==> (#[trigger] old(cmdq)@[i]).fits_desktops(NUM_DESKTOPS as nat),
        ensures
            final(self)@ == old(self)@.after_commands(old(cmdq)@),
            final(self)@.wf(),
            final(out)@ == old(out)@ + old(self)@.commands_requests(old(cmdq)@),
            old(out)@.is_prefix_of(final(out)@),
            final(cmdq)@.len() == 0,
            r == first_interrupt(old(cmdq)@),
    {
        let ghost s = self@;
        let ghost q = cmdq@;
        let mut i: usize = 0;
        assert(q.skip(0) == q);
        assert(out@.take(out@.len() as int) =~= out@);
        assert(out@ + s.commands_requests(q) == old(out)@ + s.commands_requests(q));
        while i < cmdq.len()
            invariant
                cmdq@ == q,
                s == old(self)@,
                q == old(cmdq)@,
                old(out)@.is_prefix_of(out@),
                out@ + self@.commands_requests(q.skip(i as int)) == old(out)@ + s.commands_requests(q),
                i <= q.len(),
                self@.wf(),
                self@.after_commands(q.skip(i as int)) == s.after_commands(q),
                first_interrupt(q.skip(i as int)) == first_interrupt(q),
                forall|j: int| 0 <= j < q.len() ==> (#[trigger] q[j]).fits_desktops(NUM_DESKTOPS as nat),
            decreases q.len() - i,
        {
            let cmd = cmdq[i].duplicate();
            proof {
                let rest = q.skip(i as int);
                assert(rest[0] == q[i as int]);
                assert(rest.drop_first() == q.skip(i as int + 1));
            }
            match cmd {
                Command::Exit => {
                    assert(q.skip(i as int)[0] == Command::Exit);
                    assert(self@.after_commands(q.skip(i as int)) == self@);
                    assert(self@.commands_requests(q.skip(i as int)) == Seq::<Action>::empty());
                    assert(out@ =~= out@ + Seq::<Action>::empty());
                    cmdq.clear();
                    return Outcome::Interrupted { restart: false };
                },
                Command::Restart => {
                    assert(q.skip(i as int)[0] == Command::Restart);
                    assert(self@.after_commands(q.skip(i as int)) == self@);
                    assert(self@.commands_requests(q.skip(i as int)) == Seq::<Action>::empty());
                    assert(out@ =~= out@ + Seq::<Action>::empty());
                    cmdq.clear();
                    return Outcome::Interrupted { restart: true };
                },
                _ => {
                    let ghost o = out@;
                    let ghost before = self@;
                    let ghost c = q[i as int];
                    self.run_command(cmd, out);
                    proof {
                        lemma_prefix_trans(old(out)@, o, out@);
                        assert(before.commands_requests(q.skip(i as int)) == before.command_requests(c)
                            + self@.commands_requests(q.skip(i as int + 1)));
                        assert(out@ + self@.commands_requests(q.skip(i as int + 1)) =~= o + before.commands_requests(q.skip(i as int)));
                    }
                },
            }
            i = i + 1;
        }
        proof {
            assert(q.skip(i as int).len() == 0);
            assert(out@ =~= out@ + self@.commands_requests(q.skip(i as int)));
        }
        cmdq.clear();
        Outcome::Continue
    }
}

impl Daily {
    /// Reacts to a map request for the managed window `id`; see `Model::map_known`.
    #[verifier::rlimit(40)]
    pub fn map_request(&mut self, id: u32, out: &mut Vec<Action>)
        requires
            old(self)@.wf(),
        ensures
            final(self)@ == old(self)@.map_known(id),
            final(self)@.wf(),
            final(out)@ == old(out)@ + old(self)@.map_known_requests(final(self)@, id),
            old(out)@.is_prefix_of(final(out)@),
    {
        proof {
            reveal(Model::ids_apart);
            reveal(Model::tokens_ordered);
        }
        let ghost s = self@;
        proof {
            assert(out@.take(out@.len() as int) =~= out@);
        }
        let i = match self.find_window(id) {
            Some(i) => i,
            None => return ,
        };
        proof {
            lemma_index_of(s, i as int);
        }
        let mut w = self.windows[i];
        let monitor = match self.desktops[w.desktop].monitor {
            Some(m) => m,
            None => return ,
        };
        proof {
            lemma_desktop_monitor(s, w.desktop as int);
        }
        w.mapped = true;
        if let Some(t) = self.take_token() {
            w.stacking_order = t;
        }
        let ghost sb = self@;
        proof {
            lemma_update_wf(self@, i as int, w);
        }
        self.windows.set(i, w);
        let ghost o0 = out@;
        let ghost t1 = self@;
        self.update_layout(monitor, out);
        let ghost laid = self@;
        out.push(Action::MapWindow(id));
        proof {
            lemma_relayout_keeps(s.windows.update(i as int, w), s.monitors[monitor as int].desktop, s.monitors[monitor as int].geometry);
            assert(self@.windows[i as int].id == id);
        }
        self.change_focus(id, out);
        proof {
            assert(self@.layout_of(monitor as int) == laid.layout_of(monitor as int));
            lemma_relayout_wf(t1, monitor as int);
            assert(t1.windows == s.windows.update(i as int, w));
            assert(forall|x: u32| #[trigger] laid.has_window(x) == t1.has_window(x));
            assert(forall|x: u32| #[trigger] t1.has_window(x) == s.has_window(x)) by {
                lemma_update_wf(sb, i as int, w);
                assert(sb.windows == s.windows);
                assert(forall|x: u32| #[trigger] sb.with_windows(sb.windows.update(i as int, w)).has_window(x) == t1.has_window(x));
                assert(forall|x: u32| #[trigger] sb.has_window(x) == s.has_window(x));
            }
            assert(laid.focus == s.focus);
            assert(focus_actions(laid, id) == focus_actions(s, id));
            assert(out@ =~= o0 + self@.layout_of(monitor as int) + seq![Action::MapWindow(id)] + focus_actions(s, id));
            assert(out@.take(o0.len() as int) =~= o0);
        }
    }

    /// Reacts to a map request for a window seen for the first time; see `Model::manage`.
    #[verifier::rlimit(40)]
    pub fn manage_request(
        &mut self,
        id: u32,
        x: i16,
        y: i16,
        width: u16,
        height: u16,
        dialog: bool,
        out: &mut Vec<Action>,
    )
        requires
            old(self)@.wf(),
        ensures
            final(self)@ == old(self)@.manage(id, x, y, width, height, dialog),
            final(self)@.wf(),
            final(out)@ == old(out)@ + old(self)@.manage_requests(final(self)@, id),
            old(out)@.is_prefix_of(final(out)@),
    {
        let ghost s = self@;
        proof {
            assert(out@.take(out@.len() as int) =~= out@);
        }
        if self.is_managed(id) {
            self.map_request(id, out);
            return;
        }
        let is_sink = self.find_sink(id).is_some();
        if self.monitors.len() == 0 || id == NONE || is_sink || self.stacking_counter == u64::MAX {
            if id != NONE && !is_sink {
                out.push(Action::MapWindow(id));
                assert(out@ =~= old(out)@ + seq![Action::MapWindow(id)]);
            } else {
                assert(out@ =~= old(out)@ + Seq::<Action>::empty());
            }
            assert(out@.take(old(out)@.len() as int) =~= old(out)@);
            return;
        }
        let monitor = self.acting_monitor();
        let mg = self.monitors[monitor].geometry;
        let desktop = self.monitors[monitor].desktop;
        proof {
            assert(s.monitors[monitor as int].geometry.is_screen_rect());
        }
        let geometry = if dialog {
            Rect { x: mg.w / 2 - (width as i32) / 2, y: mg.h / 2 - (height as i32) / 2, w: width as i32, h: height as i32 }
        } else {
            Rect { x: x as i32 - mg.x, y: y as i32 - mg.y, w: width as i32, h: height as i32 }
        };
        let w = Window {
            id,
            desktop,
            mapped: true,
            floating: dialog,
            fullscreen: false,
            geometry,
            float_geometry: geometry,
            stacking_order: self.stacking_counter,
            ignore_unmap_notify: false,
        };
        assert(w == s.new_window(monitor as int, id, x, y, width, height, dialog));
        let token = self.take_token();
        assert(token == Some(w.stacking_order));
        proof {
            lemma_push_wf(self@, w);
        }
        self.windows.push(w);
        let ghost o0 = out@;
        out.push(Action::SetAllowedActions(id));
        let ghost o1 = out@;
        self.update_layout(monitor, out);
        let ghost o2 = out@;
        out.push(Action::MapWindow(id));
        proof {
            assert(o0.is_prefix_of(o1)) by {
                assert(o0 =~= o1.subrange(0, o0.len() as int));
            }
            lemma_prefix_trans(o0, o1, o2);
            assert(o2.is_prefix_of(out@)) by {
                assert(o2 =~= out@.subrange(0, o2.len() as int));
            }
            lemma_prefix_trans(o0, o2, out@);
            lemma_relayout_keeps(s.windows.push(w), desktop, mg);
            assert(self@.windows[s.windows.len() as int].id == id);
        }
        let ghost laid = self@;
        self.change_focus(id, out);
        proof {
            assert(laid == self@.with_focus(s.focus));
            assert(out@ =~= o0 + (seq![Action::SetAllowedActions(id)] + self@.layout_of(monitor as int)
                + seq![Action::MapWindow(id)] + focus_actions(self@.with_focus(s.focus), id)));
            assert(out@.take(o0.len() as int) =~= o0);
        }
    }

    /// Reacts to an unmap notification for `id`; see `Model::unmapped`.
    #[verifier::rlimit(40)]
    pub fn unmap_notify(&mut self, id: u32, out: &mut Vec<Action>)
        requires
            old(self)@.wf(),
        ensures
            final(self)@ == old(self)@.unmapped(id),
            final(self)@.wf(),
            final(out)@ == old(out)@ + old(self)@.unmapped_requests(final(self)@, id),
            old(out)@.is_prefix_of(final(out)@),
    {
        let ghost s = self@;
        proof {
            assert(out@.take(out@.len() as int) =~= out@);
        }
        let i = match self.find_window(id) {
            Some(i) => i,
            None => return ,
        };
        proof {
            lemma_index_of(s, i as int);
        }
        let mut w = self.windows[i];
        if w.ignore_unmap_notify {
            w.ignore_unmap_notify = false;
            proof {
                lemma_update_wf(s, i as int, w);
            }
            self.windows.set(i, w);
            return;
        }
        let monitor = match self.desktops[w.desktop].monitor {
            Some(m) => m,
            None => return ,
        };
        proof {
            lemma_desktop_monitor(s, w.desktop as int);
        }
        w.mapped = false;
        proof {
            lemma_update_wf(s, i as int, w);
        }
        self.windows.set(i, w);
        let ghost t = self@;
        if self.focus == id {
            let f = self.first_or(w.desktop, self.monitors[monitor].dummy_window);
            proof {
                lemma_fallback_focusable(self@, monitor as int);
            }
            self.change_focus(f, out);
        }
        self.update_layout(monitor, out);
        proof {
            assert(forall|x: u32| #[trigger] t.has_window(x) == s.has_window(x));
            assert(focus_actions(t, self@.focus) == focus_actions(s, self@.focus));
            assert(out@ =~= old(out)@ + ((if s.focus == id { focus_actions(s, self@.focus) } else { seq![] })
                + self@.layout_of(monitor as int)));
            assert(out@.take(old(out)@.len() as int) =~= old(out)@);
        }
    }

    /// Forgets the destroyed window `id`; see `Model::removed`.
    #[verifier::rlimit(40)]
    pub fn remove_window(&mut self, id: u32, out: &mut Vec<Action>)
        requires
            old(self)@.wf(),
        ensures
            final(self)@ == old(self)@.removed(id),
            final(self)@.wf(),
            final(out)@ == old(out)@ + old(self)@.removed_requests(final(self)@, id),
            old(out)@.is_prefix_of(final(out)@),
    {
        let ghost s = self@;
        proof {
            assert(out@.take(out@.len() as int) =~= out@);
        }
        let i = match self.find_window(id) {
            Some(i) => i,
            None => return ,
        };
        proof {
            lemma_index_of(s, i as int);
            lemma_remove_wf(s, i as int);
        }
        let w = self.windows.remove(i);
        let had_focus = self.focus == id;
        if had_focus {
            self.focus = NONE;
            out.push(Action::SetInputFocus(NONE));
        }
        if let Some(monitor) = self.desktops[w.desktop].monitor {
            proof {
                lemma_desktop_monitor(s, w.desktop as int);
            }
            self.update_layout(monitor, out);
        }
        let ghost t1 = self@;
        let ghost o1 = out@;
        proof {
            assert(o1 =~= old(out)@ + (if s.focus == id { seq![Action::SetInputFocus(NONE)] } else { seq![] })
                + match s.window_monitor(id) {
                Some(m) => t1.layout_of(m as int),
                None => seq![],
            });
        }
        if had_focus && self.monitors.len() > 0 {
            let home = match self.desktops[w.desktop].monitor {
                Some(m) => m,
                None => 0,
            };
            proof {
                if self@.desktops[w.desktop as int].monitor is Some {
                    lemma_desktop_monitor(self@, w.desktop as int);
                }
            }
            let f = self.first_or(self.monitors[home].desktop, self.monitors[home].dummy_window);
            proof {
                lemma_fallback_focusable(self@, home as int);
            }
            self.change_focus(f, out);
        }
        proof {
            assert(out@ =~= o1 + if s.focus == id && t1.monitors.len() > 0 {
                focus_actions(self@.with_focus(NONE), self@.focus)
            } else {
                seq![]
            });
            assert(out@.take(old(out)@.len() as int) =~= old(out)@);
        }
    }

    /// Reacts to a configure request; see `Model::configured`. A floating or
    /// unmanaged window gets what it asked for; a tiled one keeps its place.
    pub fn configure_request(
        &mut self,
        id: u32,
        x: i16,
        y: i16,
        width: u16,
        height: u16,
        out: &mut Vec<Action>,
    )
        requires
            old(self)@.wf(),
        ensures
            final(self)@ == old(self)@.configured(id, x, y, width, height),
            final(self)@.wf(),
            final(out)@ == old(out)@ + old(self)@.configured_requests(id),
            old(out)@.is_prefix_of(final(out)@),
    {
        let ghost s = self@;
        proof {
            assert(out@.take(out@.len() as int) =~= out@);
        }
        let i = match self.find_window(id) {
            Some(i) => i,
            None => {
                out.push(Action::PassConfigure(id));
                return;
            },
        };
        proof {
            lemma_index_of(s, i as int);
        }
        let mut w = self.windows[i];
        if !w.floating {
            return;
        }
        let g = match self.desktops[w.desktop].monitor {
            Some(m) => {
                proof {
                    lemma_desktop_monitor(s, w.desktop as int);
                    assert(s.monitors[m as int].geometry.is_screen_rect());
                }
                let mg = self.monitors[m].geometry;
                Rect { x: x as i32 - mg.x, y: y as i32 - mg.y, w: width as i32, h: height as i32 }
            },
            None => Rect { x: 0, y: 0, w: width as i32, h: height as i32 },
        };
        w.geometry = g;
        proof {
            lemma_update_wf(s, i as int, w);
        }
        self.windows.set(i, w);
        out.push(Action::PassConfigure(id));
    }

    /// Reacts to a client's request to leave (`action` 0) or enter (`action`
    /// 1) fullscreen; see `Model::fullscreen_set`. Other actions are ignored.
    pub fn fullscreen_request(&mut self, id: u32, action: u32, out: &mut Vec<Action>)
        requires
            old(self)@.wf(),
        ensures
            final(self)@ == old(self)@.fullscreen_set(id, action),
            final(self)@.wf(),
            final(out)@ == old(out)@ + old(self)@.fullscreen_requests(final(self)@, id, action),
            old(out)@.is_prefix_of(final(out)@),
    {
        let ghost s = self@;
        proof {
            assert(out@.take(out@.len() as int) =~= out@);
        }
        if action != 0 && action != 1 {
            return;
        }
        let i = match self.find_window(id) {
            Some(i) => i,
            None => return ,
        };
        proof {
            lemma_index_of(s, i as int);
        }
        let mut w = self.windows[i];
        w.fullscreen = action == 1;
        proof {
            lemma_update_wf(s, i as int, w);
        }
        self.windows.set(i, w);
        if let Some(m) = self.desktops[w.desktop].monitor {
            proof {
                lemma_desktop_monitor(s, w.desktop as int);
            }
            self.update_layout(m, out);
        }
        out.push(Action::SetFullscreenState { window: id, fullscreen: action == 1 });
        proof {
            assert(out@ =~= old(out)@ + ((match s.window_monitor(id) {
                Some(m) => self@.layout_of(m as int),
                None => seq![],
            }) + seq![Action::SetFullscreenState { window: id, fullscreen: action == 1 }]));
            assert(out@.take(old(out)@.len() as int) =~= old(out)@);
        }
    }
}

/// A prefix of a prefix is a prefix.
proof fn lemma_prefix_trans<A>(a: Seq<A>, b: Seq<A>, c: Seq<A>)
    requires
        a.is_prefix_of(b),
        b.is_prefix_of(c),
    ensures
        a.is_prefix_of(c),
{
    assert(a =~= c.subrange(0, a.len() as int)) by {
        assert forall|i: int| 0 <= i < a.len() implies a[i] == c[i] by {
            assert(a[i] == b.subrange(0, a.len() as int)[i]);
            assert(b[i] == c.subrange(0, b.len() as int)[i]);
        }
    }
}

impl Daily {
    /// Marks each window shown on `desktop` as hidden by the window manager and
    /// asks for it to be unmapped.
    fn hide_windows(&mut self, desktop: usize, out: &mut Vec<Action>)
        ensures
            final(self)@ == old(self)@.with_windows(hide_desktop(old(self)@.windows, desktop)),
            final(out)@ == old(out)@ + unmap_requests(mapped_ids(old(self)@.windows, desktop)),
            old(out)@.is_prefix_of(final(out)@),
    {
        let ghost s = self@;
        let ghost out0 = out@;
        let mut i: usize = 0;
        assert(out@ =~= out0 + unmap_requests(mapped_ids(s.windows.take(0), desktop)));
        while i < self.windows.len()
            invariant
                self@ == s.with_windows(self@.windows),
                self@.windows.len() == s.windows.len(),
                i <= s.windows.len(),
                forall|j: int| 0 <= j < i ==> self@.windows[j] == hide_desktop(s.windows, desktop)[j],
                forall|j: int| i <= j < s.windows.len() ==> self@.windows[j] == s.windows[j],
                out@ == out0 + unmap_requests(mapped_ids(s.windows.take(i as int), desktop)),
            decreases s.windows.len() - i,
        {
            proof {
                lemma_take_succ(s.windows, i as int);
            }
            let mut w = self.windows[i];
            if w.desktop == desktop && w.mapped {
                w.ignore_unmap_notify = true;
                self.windows.set(i, w);
                out.push(Action::UnmapWindow(w.id));
                proof {
                    let ids = mapped_ids(s.windows.take(i as int), desktop);
                    assert(mapped_ids(s.windows.take(i as int + 1), desktop) == ids.push(w.id));
                    assert(unmap_requests(ids.push(w.id)) =~= unmap_requests(ids).push(Action::UnmapWindow(w.id)));
                    assert(out@ =~= out0 + unmap_requests(mapped_ids(s.windows.take(i as int + 1), desktop)));
                }
            }
            i = i + 1;
        }
        assert(self@.windows =~= hide_desktop(s.windows, desktop));
        assert(s.windows.take(i as int) == s.windows);
        assert(out@.take(out0.len() as int) =~= out0);
    }

    /// Asks for each window shown on `desktop` to be mapped.
    fn show_windows(&self, desktop: usize, out: &mut Vec<Action>)
        ensures
            final(out)@ == old(out)@ + map_requests(mapped_ids(self@.windows, desktop)),
    {
        let ghost out0 = out@;
        let mut i: usize = 0;
        assert(out@ =~= out0 + map_requests(mapped_ids(self@.windows.take(0), desktop)));
        while i < self.windows.len()
            invariant
                i <= self@.windows.len(),
                out@ == out0 + map_requests(mapped_ids(self@.windows.take(i as int), desktop)),
            decreases self@.windows.len() - i,
        {
            proof {
                lemma_take_succ(self@.windows, i as int);
            }
            if self.windows[i].desktop == desktop && self.windows[i].mapped {
                out.push(Action::MapWindow(self.windows[i].id));
                proof {
                    let ids = mapped_ids(self@.windows.take(i as int), desktop);
                    let id = self@.windows[i as int].id;
                    assert(map_requests(ids.push(id)) =~= map_requests(ids).push(Action::MapWindow(id)));
                }
            }
            i = i + 1;
        }
        assert(self@.windows.take(i as int) == self@.windows);
    }

    /// The first monitor of the display output `crtc`.
    pub fn monitor_of_output(&self, crtc: u32) -> (r: Option<usize>)
        ensures
            match r {
                Some(m) => self@.output_monitor(crtc) == Some(m as int) && m < self@.monitors.len(),
                None => self@.output_monitor(crtc) is None,
            },
    {
        let mut m: usize = 0;
        while m < self.monitors.len()
            invariant
                m <= self@.monitors.len(),
                forall|k: int| 0 <= k < m ==> self@.monitors[k].crtc != crtc,
            decreases self@.monitors.len() - m,
        {
            if self.monitors[m].crtc == crtc {
                proof {
                    let c = choose|c: int|
                        0 <= c < self@.monitors.len() && self@.monitors[c].crtc == crtc && forall|k: int|
                            0 <= k < c ==> self@.monitors[k].crtc != crtc;
                    assert(self@.monitors[m as int].crtc == crtc);
                    assert(c == m) by {
                        if c < m {
                        } else if c > m {
                        }
                    }
                }
                return Some(m);
            }
            m = m + 1;
        }
        None
    }

    /// The first desktop that no monitor shows.
    fn free_desktop(&self) -> (r: Option<usize>)
        requires
            self@.wf(),
        ensures
            match r {
                Some(d) => self@.free_desktop() == Some(d as int) && d < NUM_DESKTOPS
                    && self@.desktops[d as int].monitor is None,
                None => self@.free_desktop() is None,
            },
    {
        let mut d: usize = 0;
        while d < self.desktops.len()
            invariant
                d <= self@.desktops.len(),
                self@.desktops.len() == NUM_DESKTOPS,
                forall|e: int| 0 <= e < d ==> self@.desktops[e].monitor is Some,
            decreases self@.desktops.len() - d,
        {
            if self.desktops[d].monitor.is_none() {
                proof {
                    let c = choose|c: int|
                        0 <= c < self@.desktops.len() && self@.desktops[c].monitor is None && forall|e: int|
                            0 <= e < c ==> self@.desktops[e].monitor is Some;
                    assert(self@.desktops[d as int].monitor is None);
                    assert(c == d) by {
                        if c < d {
                        } else if c > d {
                        }
                    }
                }
                return Some(d);
            }
            d = d + 1;
        }
        None
    }

    /// Binds a new monitor for output `crtc` of region `geometry` to `desktop`,
    /// creates and maps its focus window `sink`, and lays it out; returns its index.
    fn add_monitor(&mut self, crtc: u32, geometry: Rect, desktop: usize, sink: u32, out: &mut Vec<Action>) -> (r: usize)
        requires
            old(self)@.inv(),
            old(self)@.fresh_sink(sink),
            forall|m: int| 0 <= m < old(self)@.monitors.len() ==> old(self)@.monitors[m].crtc != crtc,
            desktop < NUM_DESKTOPS,
            old(self)@.desktops[desktop as int].monitor is None,
            geometry.is_screen_rect(),
        ensures
            r == old(self)@.monitors.len(),
            ({
                let t = old(self)@.with_monitor(crtc, geometry, desktop, sink);
                final(self)@ == t.with_windows(t.relayout_monitor(r as int))
            }),
            final(self)@.inv(),
            final(out)@ == old(out)@ + seq![Action::CreateSink { window: sink, x: geometry.x, y: geometry.y }, Action::MapWindow(sink)]
                + final(self)@.layout_of(r as int),
            old(out)@.is_prefix_of(final(out)@),
    {
        let ghost s = self@;
        let ghost out0 = out@;
        proof {
            lemma_monitor_count(s, desktop as int);
            lemma_add_monitor_wf(s, crtc, geometry, desktop, sink);
        }
        let i = self.monitors.len();
        out.push(Action::CreateSink { window: sink, x: geometry.x, y: geometry.y });
        out.push(Action::MapWindow(sink));
        self.monitors.push(Monitor { crtc, geometry, desktop, dummy_window: sink });
        self.desktops.set(desktop, Desktop { monitor: Some(i) });
        proof {
            assert(self@ == s.with_monitor(crtc, geometry, desktop, sink));
            assert(out0.is_prefix_of(out@)) by {
                assert(out0 =~= out@.subrange(0, out0.len() as int));
            }
        }
        let ghost o1 = out@;
        self.update_layout(i, out);
        proof {
            lemma_prefix_trans(out0, o1, out@);
            assert(out@ =~= out0 + seq![Action::CreateSink { window: sink, x: geometry.x, y: geometry.y }, Action::MapWindow(sink)]
                + self@.layout_of(i as int));
        }
        i
    }

    /// Gives a newly enabled output a monitor; see `Model::enabled`.
    #[verifier::rlimit(40)]
    fn enable_output(&mut self, crtc: u32, geometry: Rect, sink: u32, out: &mut Vec<Action>)
        requires
            old(self)@.wf(),
            old(self)@.fresh_sink(sink),
            old(self)@.output_monitor(crtc) is None,
            geometry.is_screen_rect(),
        ensures
            final(self)@ == old(self)@.enabled(crtc, geometry, sink),
            final(self)@.wf(),
            final(out)@ == old(out)@ + match old(self)@.free_desktop() {
                Some(d) => old(self)@.enable_requests(final(self)@, geometry, sink, d as usize),
                None => seq![],
            },
    {
        let ghost s = self@;
        let ghost out0 = out@;
        let desktop = match self.free_desktop() {
            Some(d) => d,
            None => return ,
        };
        proof {
            assert forall|m: int| 0 <= m < self@.monitors.len() implies self@.monitors[m].crtc != crtc by {
                if self@.monitors[m].crtc == crtc {
                    assert(exists|k: int| 0 <= k < self@.monitors.len() && self@.monitors[k].crtc == crtc);
                }
            }
        }
        let monitor = self.add_monitor(crtc, geometry, desktop, sink, out);
        let ghost laid = self@;
        self.show_windows(desktop, out);
        let f = self.first_or(desktop, sink);
        proof {
            lemma_fallback_focusable(self@, monitor as int);
        }
        self.change_focus(f, out);
        proof {
            assert(laid == self@.with_focus(s.focus));
            assert(out@ =~= out0 + s.enable_requests(self@, geometry, sink, desktop));
        }
    }

    /// Moves monitor `monitor` to the region `geometry` and lays it out again.
    fn reconfigure_monitor(&mut self, monitor: usize, geometry: Rect, out: &mut Vec<Action>)
        requires
            old(self)@.wf(),
            monitor < old(self)@.monitors.len(),
            geometry.is_screen_rect(),
        ensures
            final(self)@ == old(self)@.reconfigured(monitor as int, geometry),
            final(self)@.wf(),
            final(out)@ == old(out)@ + final(self)@.layout_of(monitor as int),
    {
        proof {
            lemma_geometry_wf(self@, monitor as int, geometry);
        }
        let mut m = self.monitors[monitor];
        m.geometry = geometry;
        self.monitors.set(monitor, m);
        self.update_layout(monitor, out);
    }

    /// Releases monitor `monitor` whose output was disabled; see `Model::disabled`.
    #[verifier::rlimit(40)]
    fn disable_monitor(&mut self, monitor: usize, out: &mut Vec<Action>)
        requires
            old(self)@.wf(),
            monitor < old(self)@.monitors.len(),
        ensures
            final(self)@ == old(self)@.disabled(monitor as int),
            final(self)@.wf(),
            final(out)@ == old(out)@ + old(self)@.disable_requests(monitor as int),
    {
        let ghost out0 = out@;
        let ghost s = self@;
        let desktop = self.monitors[monitor].desktop;
        let sink = self.monitors[monitor].dummy_window;
        let inside = match self.find_window(self.focus) {
            Some(i) => {
                proof {
                    lemma_index_of(s, i as int);
                    if shown_on(s.windows, desktop, s.focus) {
                        let j = choose|j: int| 0 <= j < s.windows.len() && s.windows[j].id == s.focus && is_mapped_on(s.windows[j], desktop);
                        lemma_index_of(s, j);
                    }
                }
                self.windows[i].mapped && self.windows[i].desktop == desktop
            },
            None => false,
        };
        assert(inside == shown_on(s.windows, desktop, s.focus));
        let was_inside = inside || self.focus == sink;
        if was_inside {
            self.change_focus(NONE, out);
        }
        assert(was_inside == s.focus_inside(monitor as int));
        assert(self@.windows == s.windows);
        self.hide_windows(desktop, out);
        self.desktops.set(desktop, Desktop { monitor: None });
        out.push(Action::DestroyWindow(sink));
        proof {
            assert(s.monitors[s.monitors.len() - 1].desktop < NUM_DESKTOPS);
        }
        self.monitors.swap_remove(monitor);
        if monitor < self.monitors.len() {
            let moved = self.monitors[monitor].desktop;
            self.desktops.set(moved, Desktop { monitor: Some(monitor) });
        }
        proof {
            lemma_disable_wf(s, monitor as int);
            if monitor as int == s.monitors.len() - 1 {
                assert(self@.monitors =~= s.monitors.drop_last());
            } else {
                assert(self@.monitors =~= s.monitors.update(monitor as int, s.monitors.last()).drop_last());
            }
            assert(self@ == s.unbound(monitor as int));
        }
        let ghost o1 = out@;
        if was_inside && self.monitors.len() > 0 {
            let f = self.first_or(self.monitors[0].desktop, self.monitors[0].dummy_window);
            proof {
                lemma_fallback_focusable(self@, 0);
            }
            self.change_focus(f, out);
        }
        proof {
            assert(out@ =~= out0 + s.disable_requests(monitor as int));
        }
    }

    /// Reacts to a change of the display output `crtc`; see `Model::output_changed`.
    #[verifier::rlimit(40)]
    pub fn crtc_change(
        &mut self,
        crtc: u32,
        enabled: bool,
        x: i16,
        y: i16,
        width: u16,
        height: u16,
        sink: u32,
        out: &mut Vec<Action>,
    )
        requires
            old(self)@.wf(),
            enabled && old(self)@.output_monitor(crtc) is None ==> old(self)@.fresh_sink(sink),
        ensures
            final(self)@ == old(self)@.output_changed(
                crtc,
                enabled,
                Rect { x: x as i32, y: y as i32, w: width as i32, h: height as i32 },
                sink,
            ),
            final(self)@.wf(),
            final(out)@ == old(out)@ + old(self)@.output_requests(
                final(self)@,
                crtc,
                enabled,
                Rect { x: x as i32, y: y as i32, w: width as i32, h: height as i32 },
                sink,
            ),
    {
        let geometry = Rect { x: x as i32, y: y as i32, w: width as i32, h: height as i32 };
        match self.monitor_of_output(crtc) {
            Some(m) => {
                if enabled {
                    self.reconfigure_monitor(m, geometry, out);
                } else {
                    self.disable_monitor(m, out);
                }
            },
            None => {
                if enabled {
                    self.enable_output(crtc, geometry, sink, out);
                }
            },
        }
    }
}

impl Daily {
    /// The first monitor whose region holds the point `(x, y)`.
    fn monitor_at(&self, x: i32, y: i32) -> (r: Option<usize>)
        ensures
            match r {
                Some(m) => self@.monitor_at(x as int, y as int) == Some(m as int) && m < self@.monitors.len(),
                None => self@.monitor_at(x as int, y as int) is None,
            },
    {
        let mut m: usize = 0;
        while m < self.monitors.len()
            invariant
                m <= self@.monitors.len(),
                forall|k: int| 0 <= k < m ==> !self@.monitors[k].geometry.holds(x as int, y as int),
            decreases self@.monitors.len() - m,
        {
            if self.monitors[m].geometry.contains(x, y) {
                proof {
                    let c = choose|c: int|
                        0 <= c < self@.monitors.len() && self@.monitors[c].geometry.holds(x as int, y as int)
                            && forall|k: int| 0 <= k < c ==> !self@.monitors[k].geometry.holds(x as int, y as int);
                    assert(self@.monitors[m as int].geometry.holds(x as int, y as int));
                    assert(c == m) by {
                        if c < m {
                        } else if c > m {
                        }
                    }
                }
                return Some(m);
            }
            m = m + 1;
        }
        None
    }

    /// Queues the command bound to the pressed key, if any.
    pub fn key_press(&self, state: u16, detail: u8, cmdq: &mut Vec<Command>)
        requires
            self@.wf(),
        ensures
            final(cmdq)@ == old(cmdq)@ + match binding(self@.keybind, state, detail) {
                Some(c) => seq![c],
                None => seq![],
            },
            match binding(self@.keybind, state, detail) {
                Some(c) => c.fits_desktops(NUM_DESKTOPS as nat),
                None => true,
            },
    {
        proof {
            lemma_binding_fits(self@.keybind, state, detail);
        }
        if let Some(cmd) = self.lookup(state, detail) {
            cmdq.push(cmd);
        } else {
            assert(cmdq@ =~= cmdq@ + seq![]);
        }
    }

    /// Moves the focus for a click at `(x, y)` and raises a floating window
    /// that takes it; see `Model::clicked`.
    #[verifier::rlimit(40)]
    fn focus_click(&mut self, x: i32, y: i32, clicked: Option<u32>, out: &mut Vec<Action>)
        requires
            old(self)@.wf(),
        ensures
            final(self)@ == old(self)@.clicked(x, y, clicked),
            final(self)@.wf(),
            final(out)@ == old(out)@ + old(self)@.click_requests(x, y, clicked),
    {
        proof {
            reveal(Model::ids_apart);
            reveal(Model::tokens_ordered);
        }
        let ghost s = self@;
        let mut target: Option<u32> = None;
        if let Some(c) = clicked {
            if c != NONE && (self.is_managed(c) || self.find_sink(c).is_some()) {
                target = Some(c);
            }
        }
        if target.is_none() {
            target = match self.monitor_at(x, y) {
                Some(m) => Some(self.monitors[m].dummy_window),
                None => if self.monitors.len() > 0 { Some(self.monitors[0].dummy_window) } else { None },
            };
        }
        assert(target == s.click_focus(x as int, y as int, clicked));
        if let Some(f) = target {
            self.change_focus(f, out);
            if let Some(i) = self.find_window(f) {
                proof {
                    lemma_index_of(self@, i as int);
                }
                let mut w = self.windows[i];
                if w.floating {
                    if let Some(t) = self.take_token() {
                        w.stacking_order = t;
                        proof {
                            lemma_update_wf(self@, i as int, w);
                        }
                        self.windows.set(i, w);
                    } else {
                        assert(self@.windows.update(i as int, w) =~= self@.windows);
                    }
                    out.push(
                        Action::Configure {
                            window: f,
                            geometry: None,
                            border_width: None,
                            stack: Some(Stack::Below(self.preview_window)),
                        },
                    );
                }
            }
        }
        proof {
            assert(out@ =~= old(out)@ + s.click_requests(x, y, clicked));
        }
    }

    /// Reacts to a pointer button press; see `Model::pressed`. The last request
    /// lets the pointer go on: synchronously while a drag session holds it.
    #[verifier::rlimit(40)]
    pub fn button_press(&mut self, x: i16, y: i16, clicked: Option<u32>, detail: u8, state: u16, out: &mut Vec<Action>)
        requires
            old(self)@.wf(),
        ensures
            final(self)@ == old(self)@.pressed(x as i32, y as i32, clicked, detail, state),
            final(self)@.wf(),
            final(out)@ == old(out)@ + old(self)@.press_requests(x as i32, y as i32, clicked, detail, state),
    {
        proof {
            reveal(Model::pressed);
        }
        let x = x as i32;
        let y = y as i32;
        if detail == 1 || detail == 3 {
            self.focus_click(x, y, clicked, out);
        } else {
            assert(out@ =~= old(out)@ + Seq::<Action>::empty());
        }
        if state & HOT_KEY.keybutmask() != 0 {
            let ghost t = self@;
            self.dnd_position = Some((x, y));
            if self.button_count < usize::MAX {
                self.button_count = self.button_count + 1;
            }
            proof {
                lemma_drag_wf(t, self.dnd_position, self.button_count, self.preview_geometry);
                assert(self@ == (Model { dnd_position: self.dnd_position, button_count: self.button_count, preview_geometry: self.preview_geometry, ..t }));
            }
            out.push(Action::AllowEvents { sync: true });
        } else {
            out.push(Action::AllowEvents { sync: false });
        }
    }
}

impl Daily {
    /// Reacts to the pointer moving to `(x, y)`; see `Model::dragged`. The
    /// dragged window is configured at once, just below the preview window, and
    /// the preview window shows the snap candidate or is hidden.
    #[verifier::rlimit(80)]
    pub fn motion_notify(&mut self, x: i16, y: i16, state: u16, out: &mut Vec<Action>)
        requires
            old(self)@.wf(),
        ensures
            final(self)@ == old(self)@.dragged(x as i32, y as i32, state),
            final(self)@.wf(),
            final(out)@ == old(out)@ + old(self)@.motion_requests(x as i32, y as i32, state),
            old(out)@.is_prefix_of(final(out)@),
    {
        proof {
            assert(out@.take(out@.len() as int) =~= out@);
        }
        proof {
            reveal(Model::dragged);
            reveal(Model::motion_requests);
            assert(out@ =~= out@ + Seq::<Action>::empty());
        }
        let ghost s = self@;
        let (px, py) = match self.dnd_position {
            Some(p) => p,
            None => return ,
        };
        let x = x as i32;
        let y = y as i32;
        self.dnd_position = Some((x, y));
        proof {
            lemma_drag_wf(s, self.dnd_position, self.button_count, self.preview_geometry);
            assert(self@ == (Model { dnd_position: self.dnd_position, button_count: self.button_count, preview_geometry: self.preview_geometry, ..s }));
        }
        let ghost s0 = self@;
        let i = match self.find_window(self.focus) {
            Some(i) => i,
            None => return ,
        };
        proof {
            lemma_index_of(s0, i as int);
        }
        self.float_window(i, out);
        let ghost o1 = out@;
        let ghost s1 = self@;
        assert(s1.windows[i as int].id == s0.focus);
        let dx = x as i64 - px as i64;
        let dy = y as i64 - py as i64;
        let shown = self.desktops[self.windows[i].desktop].monitor.is_some();
        self.drag_move(i, x, y, dx, dy, state, out);
        proof {
            lemma_prefix_trans(old(out)@, o1, out@);
        }
        if !shown {
            proof {
                assert(out@ =~= old(out)@ + (out@.subrange(old(out)@.len() as int, o1.len() as int)
                    + out@.subrange(o1.len() as int, out@.len() as int) + Seq::<Action>::empty()));
            }
            return;
        }
        let ghost o2 = out@;
        self.show_snap(x, y, state, out);
        proof {
            lemma_prefix_trans(old(out)@, o2, out@);
        }
    }

    /// Makes the window at `i` float, laying its monitor out again, if it was tiled.
    fn float_window(&mut self, i: usize, out: &mut Vec<Action>)
        requires
            old(self)@.wf(),
            i < old(self)@.windows.len(),
        ensures
            final(self)@.wf(),
            ({
                let s = old(self)@;
                let w = s.windows[i as int];
                final(self)@ == if !w.floating {
                    let t = s.with_windows(s.windows.update(i as int, Window { floating: true, ..w }));
                    match t.desktops[w.desktop as int].monitor {
                        Some(m) => t.with_windows(t.relayout_monitor(m as int)),
                        None => t,
                    }
                } else {
                    s
                }
            }),
            final(self)@.windows[i as int].id == old(self)@.windows[i as int].id,
            ({
                let w = old(self)@.windows[i as int];
                final(out)@ == old(out)@ + if !w.floating {
                    match old(self)@.desktops[w.desktop as int].monitor {
                        Some(m) => final(self)@.layout_of(m as int),
                        None => seq![],
                    }
                } else {
                    seq![]
                }
            }),
            old(out)@.is_prefix_of(final(out)@),
    {
        proof {
            assert(out@.take(out@.len() as int) =~= out@);
        }
        let ghost s0 = self@;
        let w = self.windows[i];
        assert(out@ =~= old(out)@ + Seq::<Action>::empty());
        if !w.floating {
            let mut w0 = w;
            w0.floating = true;
            proof {
                lemma_update_wf(s0, i as int, w0);
            }
            self.windows.set(i, w0);
            if let Some(m) = self.desktops[w.desktop].monitor {
                proof {
                    lemma_desktop_monitor(self@, w.desktop as int);
                    lemma_relayout_keeps(self@.windows, self@.monitors[m as int].desktop, self@.monitors[m as int].geometry);
                }
                self.update_layout(m, out);
            }
        }
    }

    /// Moves or resizes the dragged window at `i` after the pointer moved by
    /// `(dx, dy)` to `(x, y)`; see `Model::drag_moved`. On a shown desktop the
    /// window is configured at once, just below the preview window.
    #[verifier::rlimit(40)]
    fn drag_move(&mut self, i: usize, x: i32, y: i32, dx: i64, dy: i64, state: u16, out: &mut Vec<Action>)
        requires
            old(self)@.wf(),
            i < old(self)@.windows.len(),
            -0x1_0000_0000 <= dx <= 0x1_0000_0000,
            -0x1_0000_0000 <= dy <= 0x1_0000_0000,
        ensures
            final(self)@ == old(self)@.drag_moved(i as int, x, y, dx as int, dy as int, state),
            final(self)@.wf(),
            final(out)@ == old(out)@ + old(self)@.drag_move_requests(i as int, x, y, dx as int, dy as int, state),
            old(out)@.is_prefix_of(final(out)@),
    {
        proof {
            assert(out@.take(out@.len() as int) =~= out@);
        }
        let ghost s1 = self@;
        let w1 = self.windows[i];
        let mut g = w1.geometry;
        if state & MASK_BUTTON1 != 0 {
            g.x = sat_add(g.x, dx);
            g.y = sat_add(g.y, dy);
        } else if state & MASK_BUTTON3 != 0 {
            g.w = sat_add(g.w, dx);
            g.h = sat_add(g.h, dy);
        }
        assert(g == drag_geometry(w1.geometry, dx as int, dy as int, state));
        let m = match self.desktops[w1.desktop].monitor {
            Some(m) => m,
            None => {
                let mut w2 = w1;
                w2.geometry = g;
                proof {
                    lemma_update_wf(s1, i as int, w2);
                }
                self.windows.set(i, w2);
                assert(out@ =~= old(out)@ + Seq::<Action>::empty());
                return;
            },
        };
        proof {
            lemma_desktop_monitor(s1, w1.desktop as int);
        }
        let mg = self.monitors[m].geometry;
        let mut w2 = w1;
        w2.geometry = g;
        let mut shown_on: usize = m;
        if !mg.contains(x, y) {
            if let Some(n) = self.monitor_at(x, y) {
                let ng = self.monitors[n].geometry;
                w2.desktop = self.monitors[n].desktop;
                w2.geometry.x = sat_add(sat_add(mg.x, g.x as i64), -(ng.x as i64));
                w2.geometry.y = sat_add(sat_add(mg.y, g.y as i64), -(ng.y as i64));
                shown_on = n;
            }
        }
        proof {
            lemma_update_wf(s1, i as int, w2);
        }
        self.windows.set(i, w2);
        let cg = self.monitors[shown_on].geometry;
        out.push(
            Action::Configure {
                window: w2.id,
                geometry: Some(
                    Rect {
                        x: sat_add(cg.x, w2.geometry.x as i64),
                        y: sat_add(cg.y, w2.geometry.y as i64),
                        w: w2.geometry.w,
                        h: w2.geometry.h,
                    },
                ),
                border_width: None,
                stack: Some(Stack::Below(self.preview_window)),
            },
        );
        assert(out@.take(old(out)@.len() as int) =~= old(out)@);
        assert(self@.windows[i as int] == w2);
        assert(out@ =~= old(out)@ + s1.drag_move_requests(i as int, x, y, dx as int, dy as int, state));
    }

    /// Shows the snap candidate under the pointer in the preview window while
    /// the primary button is held, and hides the preview window otherwise.
    #[verifier::rlimit(80)]
    fn show_snap(&mut self, x: i32, y: i32, state: u16, out: &mut Vec<Action>)
        requires
            old(self)@.wf(),
        ensures
            final(self)@.wf(),
            final(self)@ == old(self)@.snap_shown(x, y, state),
            final(out)@ == old(out)@ + old(self)@.snap_requests(x, y, state),
            old(out)@.is_prefix_of(final(out)@),
            ({
                let s = old(self)@;
                let snapped = match s.monitor_at(x as int, y as int) {
                    Some(n) => snap_target(s.monitors[n].geometry, x as int, y as int),
                    None => None,
                };
                final(out)@.last() == if state & MASK_BUTTON1 != 0 && snapped is Some {
                    Action::MapWindow(s.preview_window)
                } else {
                    Action::UnmapWindow(s.preview_window)
                }
            }),
    {
        let ghost s3 = self@;
        let snapped = match self.monitor_at(x, y) {            Some(n) => snap(self.monitors[n].geometry, x, y),
            None => None,
        };
        if let Some(sg) = snapped {
            if sg != self.preview_geometry {
                self.preview_geometry = sg;
                out.push(
                    Action::Configure {
                        window: self.preview_window,
                        geometry: Some(sg),
                        border_width: None,
                        stack: Some(Stack::TopIf),
                    },
                );
            }
        }
        if state & MASK_BUTTON1 != 0 && snapped.is_some() {
            out.push(Action::MapWindow(self.preview_window));
        } else {
            self.preview_geometry = Rect::empty();
            out.push(Action::UnmapWindow(self.preview_window));
        }
        proof {
            lemma_drag_wf(s3, self.dnd_position, self.button_count, self.preview_geometry);
            assert(self@ == (Model { dnd_position: self.dnd_position, button_count: self.button_count, preview_geometry: self.preview_geometry, ..s3 }));
            assert(out@.take(old(out)@.len() as int) =~= old(out)@) by {
                assert forall|k: int| 0 <= k < old(out)@.len() implies out@[k] == old(out)@[k] by {}
            }
            assert(out@ =~= old(out)@ + s3.snap_requests(x, y, state));
        }
    }

    /// Reacts to a pointer button release at `(x, y)`; see `Model::released`.
    /// While buttons remain held the pointer goes on synchronously; when the
    /// last one is released, the preview window is hidden.
    #[verifier::rlimit(40)]
    pub fn button_release(&mut self, x: i16, y: i16, detail: u8, out: &mut Vec<Action>)
        requires
            old(self)@.wf(),
        ensures
            final(self)@ == old(self)@.released(x as i32, y as i32, detail),
            final(self)@.wf(),
            final(out)@ == old(out)@ + old(self)@.release_requests(x as i32, y as i32, detail),
            old(out)@.is_prefix_of(final(out)@),
            final(self)@.button_count > 0 ==> final(out)@.last() == (Action::AllowEvents { sync: true }),
            final(self)@.button_count == 0 ==> final(out)@.last() == Action::UnmapWindow(final(self)@.preview_window)
                && final(self)@.drag_idle(),
    {
        proof {
            reveal(Model::released);
            reveal(Model::release_requests);
        }
        let ghost s = self@;
        let x = x as i32;
        let y = y as i32;
        if self.button_count > 0 {
            self.button_count = self.button_count - 1;
        }
        proof {
            lemma_drag_wf(s, self.dnd_position, self.button_count, self.preview_geometry);
            assert(self@ == (Model { dnd_position: self.dnd_position, button_count: self.button_count, preview_geometry: self.preview_geometry, ..s }));
        }
        let ghost c0 = self@;
        let ghost oc = out@;
        self.commit_snap(x, y, detail, out);
        let ghost s2 = self@;
        let ghost o2 = out@;
        proof {
            let count = if s.button_count > 0 { (s.button_count - 1) as usize } else { 0usize };
            assert(c0 == Model { button_count: count, ..s });
            assert(oc == old(out)@);
        }
        if self.button_count > 0 {
            out.push(Action::AllowEvents { sync: true });
        } else {
            self.dnd_position = None;
            self.preview_geometry = Rect::empty();
            out.push(Action::UnmapWindow(self.preview_window));
            proof {
                lemma_drag_wf(s2, self.dnd_position, self.button_count, self.preview_geometry);
                assert(self@ == (Model { dnd_position: self.dnd_position, button_count: self.button_count, preview_geometry: self.preview_geometry, ..s2 }));
            }
        }
        proof {
            assert(o2.is_prefix_of(out@)) by {
                assert(o2 =~= out@.subrange(0, o2.len() as int));
            }
            lemma_prefix_trans(old(out)@, o2, out@);
            let commit = match c0.snap_commit_monitor(x, y, detail) {
                Some(m) => s2.layout_of(m),
                None => seq![],
            };
            assert(o2 == old(out)@ + commit);
            assert(s2.preview_window == s.preview_window);
            assert(out@ =~= old(out)@ + (commit + if c0.button_count > 0 {
                seq![Action::AllowEvents { sync: true }]
            } else {
                seq![Action::UnmapWindow(s.preview_window)]
            }));
        }
    }

    /// Commits the snap target under the pointer to the focused window when
    /// the primary button is released; see `Model::snap_committed`.
    #[verifier::rlimit(40)]
    fn commit_snap(&mut self, x: i32, y: i32, detail: u8, out: &mut Vec<Action>)
        requires
            old(self)@.wf(),
        ensures
            final(self)@ == old(self)@.snap_committed(x, y, detail),
            final(self)@.wf(),
            final(self)@.button_count == old(self)@.button_count,
            final(self)@.preview_window == old(self)@.preview_window,
            final(out)@ == old(out)@ + match old(self)@.snap_commit_monitor(x, y, detail) {
                Some(m) => final(self)@.layout_of(m),
                None => seq![],
            },
            old(out)@.is_prefix_of(final(out)@),
    {
        let ghost s1 = self@;
        proof {
            reveal(Model::snap_committed);
            reveal(Model::snap_commit_monitor);
            assert(out@.take(out@.len() as int) =~= out@);
            assert(out@ =~= out@ + Seq::<Action>::empty());
        }
        if detail == 1 {
            if let Some(i) = self.find_window(self.focus) {
                proof {
                    lemma_index_of(s1, i as int);
                }
                if let Some(m) = self.monitor_at(x, y) {
                    let mg = self.monitors[m].geometry;
                    proof {
                        assert(s1.monitors[m as int].geometry.is_screen_rect());
                    }
                    if let Some(g) = snap(mg, x, y) {
                        let g2 = Rect { x: g.x - mg.x, y: g.y - mg.y, w: g.w, h: g.h };
                        let mut w = self.windows[i];
                        if g2 != w.geometry {
                            w.geometry = g2;
                            proof {
                                lemma_update_wf(s1, i as int, w);
                            }
                            self.windows.set(i, w);
                            self.update_layout(m, out);
                        }
                    }
                }
            }
        }
    }
}

impl Daily {
    /// Reacts to one event from the display server: updates the state as
    /// `Model::after_event` says, appends to `out` the requests to carry out,
    /// and queues in `cmdq` the commands to run afterwards.
    pub fn handle_event(&mut self, event: Event, cmdq: &mut Vec<Command>, out: &mut Vec<Action>)
        requires
            old(self)@.wf(),
            old(self)@.fresh_output(event),
            forall|i: int| 0 <= i < old(cmdq)@.len() ==> (#[trigger] old(cmdq)@[i]).fits_desktops(NUM_DESKTOPS as nat),
        ensures
            final(self)@ == old(self)@.after_event(event),
            final(self)@.wf(),
            event is ButtonRelease ==> old(out)@.is_prefix_of(final(out)@) && if final(self)@.button_count > 0 {
                final(out)@.last() == Action::AllowEvents { sync: true }
            } else {
                final(out)@.last() == Action::UnmapWindow(final(self)@.preview_window) && final(self)@.drag_idle()
            },
            final(out)@ == old(out)@ + old(self)@.event_requests(final(self)@, event),
            forall|i: int| 0 <= i < final(cmdq)@.len() ==> (#[trigger] final(cmdq)@[i]).fits_desktops(NUM_DESKTOPS as nat),
            match event {
                Event::KeyPress { state, detail } => final(cmdq)@ == old(cmdq)@ + match binding(old(self)@.keybind, state, detail) {
                    Some(c) => seq![c],
                    None => seq![],
                },
                Event::OutputChange => final(cmdq)@.len() == old(cmdq)@.len() + 1 && final(cmdq)@.drop_last() == old(cmdq)@
                    && spawns(final(cmdq)@.last(), MONITOR_UPDATE_PROG),
                _ => final(cmdq)@ == old(cmdq)@,
            },
    {
        match event {
            Event::KeyPress { .. } | Event::ButtonPress { .. } | Event::MotionNotify { .. } | Event::ButtonRelease { .. } => {
                self.handle_input(event, cmdq, out);
            },
            _ => {
                self.handle_window_event(event, cmdq, out);
            },
        }
    }

    /// Reacts to a key or pointer event.
    #[verifier::spinoff_prover]
    #[verifier::rlimit(40)]
    fn handle_input(&mut self, event: Event, cmdq: &mut Vec<Command>, out: &mut Vec<Action>)
        requires
            event is KeyPress || event is ButtonPress || event is MotionNotify || event is ButtonRelease,
            old(self)@.wf(),
            old(self)@.fresh_output(event),
            forall|i: int| 0 <= i < old(cmdq)@.len() ==> (#[trigger] old(cmdq)@[i]).fits_desktops(NUM_DESKTOPS as nat),
        ensures
            final(self)@ == old(self)@.after_event(event),
            final(self)@.wf(),
            event is ButtonRelease ==> old(out)@.is_prefix_of(final(out)@) && if final(self)@.button_count > 0 {
                final(out)@.last() == Action::AllowEvents { sync: true }
            } else {
                final(out)@.last() == Action::UnmapWindow(final(self)@.preview_window) && final(self)@.drag_idle()
            },
            final(out)@ == old(out)@ + old(self)@.event_requests(final(self)@, event),
            forall|i: int| 0 <= i < final(cmdq)@.len() ==> (#[trigger] final(cmdq)@[i]).fits_desktops(NUM_DESKTOPS as nat),
            match event {
                Event::KeyPress { state, detail } => final(cmdq)@ == old(cmdq)@ + match binding(old(self)@.keybind, state, detail) {
                    Some(c) => seq![c],
                    None => seq![],
                },
                Event::OutputChange => final(cmdq)@.len() == old(cmdq)@.len() + 1 && final(cmdq)@.drop_last() == old(cmdq)@
                    && spawns(final(cmdq)@.last(), MONITOR_UPDATE_PROG),
                _ => final(cmdq)@ == old(cmdq)@,
            },
    {
        let ghost q = cmdq@;
        match event {
            Event::KeyPress { state, detail } => {
                proof {
                    reveal(Model::after_event);
                    reveal(Model::event_requests);
                }
                self.key_press(state, detail, cmdq);
                assert(out@ =~= old(out)@ + old(self)@.event_requests(self@, event));
                assert forall|i: int| 0 <= i < cmdq@.len() implies (#[trigger] cmdq@[i]).fits_desktops(NUM_DESKTOPS as nat) by {
                    if i < q.len() {
                        assert(cmdq@[i] == q[i]);
                    }
                }
            },
            Event::ButtonPress { root_x, root_y, clicked, detail, state } => {
                proof {
                    reveal(Model::after_event);
                    reveal(Model::event_requests);
                }
                self.button_press(root_x, root_y, clicked, detail, state, out);
            },
            Event::MotionNotify { root_x, root_y, state } => {
                proof {
                    reveal(Model::after_event);
                    reveal(Model::event_requests);
                }
                self.motion_notify(root_x, root_y, state, out);
                assert(old(out)@.is_prefix_of(out@));
            },
            Event::ButtonRelease { root_x, root_y, detail } => {
                proof {
                    reveal(Model::after_event);
                    reveal(Model::event_requests);
                }
                self.button_release(root_x, root_y, detail, out);
            },
            _ => {},
        }
    }

    /// Reacts to an event about windows or outputs.
    #[verifier::spinoff_prover]
    #[verifier::rlimit(40)]
    fn handle_window_event(&mut self, event: Event, cmdq: &mut Vec<Command>, out: &mut Vec<Action>)
        requires
            !(event is KeyPress || event is ButtonPress || event is MotionNotify || event is ButtonRelease),
            old(self)@.wf(),
            old(self)@.fresh_output(event),
            forall|i: int| 0 <= i < old(cmdq)@.len() ==> (#[trigger] old(cmdq)@[i]).fits_desktops(NUM_DESKTOPS as nat),
        ensures
            final(self)@ == old(self)@.after_event(event),
            final(self)@.wf(),
            event is ButtonRelease ==> old(out)@.is_prefix_of(final(out)@) && if final(self)@.button_count > 0 {
                final(out)@.last() == Action::AllowEvents { sync: true }
            } else {
                final(out)@.last() == Action::UnmapWindow(final(self)@.preview_window) && final(self)@.drag_idle()
            },
            final(out)@ == old(out)@ + old(self)@.event_requests(final(self)@, event),
            forall|i: int| 0 <= i < final(cmdq)@.len() ==> (#[trigger] final(cmdq)@[i]).fits_desktops(NUM_DESKTOPS as nat),
            match event {
                Event::KeyPress { state, detail } => final(cmdq)@ == old(cmdq)@ + match binding(old(self)@.keybind, state, detail) {
                    Some(c) => seq![c],
                    None => seq![],
                },
                Event::OutputChange => final(cmdq)@.len() == old(cmdq)@.len() + 1 && final(cmdq)@.drop_last() == old(cmdq)@
                    && spawns(final(cmdq)@.last(), MONITOR_UPDATE_PROG),
                _ => final(cmdq)@ == old(cmdq)@,
            },
    {
        let ghost q = cmdq@;
        match event {
            Event::MapRequest { window } => {
                proof {
                    reveal(Model::after_event);
                    reveal(Model::event_requests);
                }
                self.map_request(window, out);
            },
            Event::ManageRequest { window, x, y, width, height, dialog } => {
                proof {
                    reveal(Model::after_event);
                    reveal(Model::event_requests);
                }
                self.manage_request(window, x, y, width, height, dialog, out);
            },
            Event::UnmapNotify { window } => {
                proof {
                    reveal(Model::after_event);
                    reveal(Model::event_requests);
                }
                self.unmap_notify(window, out);
            },
            Event::DestroyNotify { window } => {
                proof {
                    reveal(Model::after_event);
                    reveal(Model::event_requests);
                }
                self.remove_window(window, out);
            },
            Event::OutputChange => {
                proof {
                    reveal(Model::after_event);
                    reveal(Model::event_requests);
                    assert(out@ =~= old(out)@ + old(self)@.event_requests(self@, event));
                }
                cmdq.push(Command::SpawnProcess(MONITOR_UPDATE_PROG.to_string()));
                assert(cmdq@.drop_last() == q);
                assert forall|i: int| 0 <= i < cmdq@.len() implies (#[trigger] cmdq@[i]).fits_desktops(NUM_DESKTOPS as nat) by {
                    if i < q.len() {
                        assert(cmdq@[i] == q[i]);
                    }
                }
            },
            Event::CrtcChange { crtc, enabled, x, y, width, height, sink } => {
                proof {
                    reveal(Model::after_event);
                    reveal(Model::event_requests);
                }
                self.crtc_change(crtc, enabled, x, y, width, height, sink, out);
            },
            Event::ConfigureRequest { window, x, y, width, height } => {
                proof {
                    reveal(Model::after_event);
                    reveal(Model::event_requests);
                }
                self.configure_request(window, x, y, width, height, out);
            },
            Event::FullscreenRequest { window, action } => {
                proof {
                    reveal(Model::after_event);
                    reveal(Model::event_requests);
                }
                self.fullscreen_request(window, action, out);
            },
            _ => {},
        }
    }

    /// Gives the input focus to the first monitor's focus window, as at startup.
    pub fn focus_first_monitor(&mut self, out: &mut Vec<Action>)
        requires
            old(self)@.wf(),
        ensures
            old(self)@.monitors.len() > 0 ==> final(self)@ == old(self)@.with_focus(old(self)@.monitors[0].dummy_window)
                && final(out)@ == old(out)@ + focus_actions(old(self)@, old(self)@.monitors[0].dummy_window),
            old(self)@.monitors.len() == 0 ==> final(self)@ == old(self)@ && final(out)@ == old(out)@,
            final(self)@.wf(),
    {
        proof {
            reveal(Model::ids_apart);
            reveal(Model::tokens_ordered);
        }
        if self.monitors.len() > 0 {
            let f = self.monitors[0].dummy_window;
            self.change_focus(f, out);
        }
    }
}

impl Daily {
    /// The managed window `id`.
    pub fn window(&self, id: u32) -> (r: Option<Window>)
        requires
            self@.wf(),
        ensures
            r == if self@.has_window(id) { Some(self@.windows[self@.window_index(id)]) } else { None },
    {
        match self.find_window(id) {
            Some(i) => {
                proof {
                    lemma_index_of(self@, i as int);
                }
                Some(self.windows[i])
            },
            None => None,
        }
    }

    /// The number of managed windows.
    pub fn window_count(&self) -> (r: usize)
        ensures
            r == self@.windows.len(),
    {
        self.windows.len()
    }

    /// The monitor at index `m`.
    pub fn monitor(&self, m: usize) -> (r: Option<Monitor>)
        ensures
            r == if m < self@.monitors.len() { Some(self@.monitors[m as int]) } else { None },
    {
        if m < self.monitors.len() {
            Some(self.monitors[m])
        } else {
            None
        }
    }

    /// The number of monitors.
    pub fn monitor_count(&self) -> (r: usize)
        ensures
            r == self@.monitors.len(),
    {
        self.monitors.len()
    }

    /// The monitor that shows desktop `d`.
    pub fn desktop_monitor(&self, d: usize) -> (r: Option<usize>)
        ensures
            r == if d < self@.desktops.len() { self@.desktops[d as int].monitor } else { None },
    {
        if d < self.desktops.len() {
            self.desktops[d].monitor
        } else {
            None
        }
    }

    /// The number of pointer buttons held in a drag session.
    pub fn button_count(&self) -> (r: usize)
        ensures
            r == self@.button_count,
    {
        self.button_count
    }

    /// The last pointer position of the drag session, if one is going on.
    pub fn dnd_position(&self) -> (r: Option<(i32, i32)>)
        ensures
            r == self@.dnd_position,
    {
        self.dnd_position
    }

    /// The snap candidate shown by the preview window; empty when none is.
    pub fn preview_geometry(&self) -> (r: Rect)
        ensures
            r == self@.preview_geometry,
    {
        self.preview_geometry
    }
}

} // verus!
