use daily::command::{Command, Modifier, MASK_BUTTON1, MASK_MOD4, MASK_SHIFT};
use daily::daily::Daily;
use daily::geometry::Rect;
use daily::model::{Action, Event, Outcome, NONE};

const PREVIEW: u32 = 100;

fn run(d: &mut Daily, e: Event) -> Vec<Action> {
    let mut q = Vec::new();
    let mut out = Vec::new();
    d.handle_event(e, &mut q, &mut out);
    out
}

fn run_commands(d: &mut Daily, cmds: Vec<Command>) -> (Outcome, Vec<Action>) {
    let mut q = cmds;
    let mut out = Vec::new();
    let r = d.process_commands(&mut q, &mut out);
    assert!(q.is_empty());
    (r, out)
}

fn output(crtc: u32, x: i16, width: u16, sink: u32) -> Event {
    Event::CrtcChange { crtc, enabled: true, x, y: 0, width, height: 1080, sink }
}

fn manage(window: u32) -> Event {
    Event::ManageRequest { window, x: 10, y: 10, width: 300, height: 200, dialog: false }
}

/// One 1920x1080 monitor with the windows 10, 11 and 12 tiled on desktop 0.
fn three_windows() -> Daily {
    let mut d = Daily::new(PREVIEW);
    run(&mut d, output(1, 0, 1920, 200));
    for w in [10, 11, 12] {
        run(&mut d, manage(w));
    }
    d
}

#[test]
fn enabling_an_output_adds_a_monitor() {
    let mut d = Daily::new(PREVIEW);
    let out = run(&mut d, output(1, 0, 1920, 200));
    assert_eq!(d.monitor_count(), 1);
    assert_eq!(d.desktop_monitor(0), Some(0));
    assert_eq!(d.focus(), 200);
    assert_eq!(out[0], Action::CreateSink { window: 200, x: 0, y: 0 });
    assert_eq!(out[1], Action::MapWindow(200));
    assert_eq!(out.last(), Some(&Action::SetInputFocus(200)));
}

#[test]
fn disabled_unknown_output_is_ignored() {
    let mut d = Daily::new(PREVIEW);
    let out = run(&mut d, Event::CrtcChange { crtc: 1, enabled: false, x: 0, y: 0, width: 0, height: 0, sink: 200 });
    assert_eq!(d.monitor_count(), 0);
    assert!(out.is_empty());
}

#[test]
fn three_tiled_windows_share_the_width() {
    let d = three_windows();
    assert_eq!(d.window(10).unwrap().geometry, Rect { x: 0, y: 0, w: 638, h: 1078 });
    assert_eq!(d.window(11).unwrap().geometry, Rect { x: 640, y: 0, w: 638, h: 1078 });
    assert_eq!(d.window(12).unwrap().geometry, Rect { x: 1280, y: 0, w: 638, h: 1078 });
    assert_eq!(d.focus(), 12);
}

#[test]
fn four_tiled_windows_share_the_width() {
    let mut d = three_windows();
    run(&mut d, manage(13));
    for w in [10, 11, 12, 13] {
        assert_eq!(d.window(w).unwrap().geometry.w, 478);
    }
}

#[test]
fn dialog_floats_centered() {
    let mut d = three_windows();
    run(&mut d, Event::ManageRequest { window: 20, x: 0, y: 0, width: 400, height: 300, dialog: true });
    let w = d.window(20).unwrap();
    assert!(w.floating);
    assert_eq!(w.geometry, Rect { x: 760, y: 390, w: 400, h: 300 });
    assert_eq!(d.window(10).unwrap().geometry.w, 638);
}

#[test]
fn toggling_floating_twice_restores_the_layout() {
    let mut d = three_windows();
    let before: Vec<_> = [10, 11, 12].iter().map(|w| d.window(*w).unwrap()).collect();
    run_commands(&mut d, vec![Command::ToggleFloating]);
    assert!(d.window(12).unwrap().floating);
    assert_eq!(d.window(10).unwrap().geometry.w, 958);
    assert_eq!(d.window(11).unwrap().geometry, Rect { x: 960, y: 0, w: 958, h: 1078 });
    // a window floated by a toggle takes the region it was first placed in
    assert_eq!(d.window(12).unwrap().geometry, Rect { x: 10, y: 10, w: 300, h: 200 });
    run_commands(&mut d, vec![Command::ToggleFloating]);
    for (i, w) in [10, 11, 12].iter().enumerate() {
        let now = d.window(*w).unwrap();
        assert_eq!(now.geometry, before[i].geometry);
        assert_eq!(now.floating, before[i].floating);
        assert_eq!(now.desktop, before[i].desktop);
    }
}

#[test]
fn destroying_the_focused_window_moves_the_focus() {
    let mut d = three_windows();
    let out = run(&mut d, Event::DestroyNotify { window: 12 });
    assert_eq!(d.focus(), 10);
    assert!(d.window(12).is_none());
    assert_eq!(d.window_count(), 2);
    assert!(out.contains(&Action::SetInputFocus(NONE)));
    assert_eq!(out.last(), Some(&Action::SetInputFocus(10)));
    assert_eq!(d.window(11).unwrap().geometry, Rect { x: 960, y: 0, w: 958, h: 1078 });
}

#[test]
fn destroying_the_last_focused_window_focuses_the_sink() {
    let mut d = Daily::new(PREVIEW);
    run(&mut d, output(1, 0, 1920, 200));
    run(&mut d, manage(10));
    run(&mut d, Event::DestroyNotify { window: 10 });
    assert_eq!(d.focus(), 200);
}

#[test]
fn unmapping_the_focused_window_moves_the_focus() {
    let mut d = three_windows();
    run(&mut d, Event::UnmapNotify { window: 12 });
    assert_eq!(d.focus(), 10);
    assert!(!d.window(12).unwrap().mapped);
    assert_eq!(d.window(10).unwrap().geometry.w, 958);
}

#[test]
fn unmapping_the_last_window_focuses_the_sink() {
    let mut d = Daily::new(PREVIEW);
    run(&mut d, output(1, 0, 1920, 200));
    run(&mut d, manage(10));
    assert_eq!(d.focus(), 10);
    run(&mut d, Event::UnmapNotify { window: 10 });
    assert_eq!(d.focus(), 200);
}

#[test]
fn self_caused_unmap_is_ignored_once() {
    let mut d = three_windows();
    run_commands(&mut d, vec![Command::SwitchDesktop(3)]);
    assert!(d.window(10).unwrap().ignore_unmap_notify);
    run(&mut d, Event::UnmapNotify { window: 10 });
    let w = d.window(10).unwrap();
    assert!(!w.ignore_unmap_notify);
    assert!(w.mapped);
}

#[test]
fn disabling_an_output_keeps_desktops_bound_one_to_one() {
    let mut d = three_windows();
    run(&mut d, output(2, 1920, 1280, 201));
    assert_eq!(d.desktop_monitor(1), Some(1));
    run(&mut d, Event::CrtcChange { crtc: 1, enabled: false, x: 0, y: 0, width: 0, height: 0, sink: 0 });
    assert_eq!(d.monitor_count(), 1);
    assert_eq!(d.monitor(0).unwrap().crtc, 2);
    assert_eq!(d.monitor(0).unwrap().desktop, 1);
    assert_eq!(d.desktop_monitor(1), Some(0));
    assert_eq!(d.desktop_monitor(0), None);
    assert!(d.window(10).unwrap().ignore_unmap_notify);
    // the focus was on the other monitor and stays there
    assert_eq!(d.focus(), 201);
}

#[test]
fn disabling_the_focused_output_moves_the_focus() {
    let mut d = three_windows();
    run(&mut d, output(2, 1920, 1280, 201));
    assert_eq!(d.focus(), 201);
    run(&mut d, Event::CrtcChange { crtc: 2, enabled: false, x: 0, y: 0, width: 0, height: 0, sink: 0 });
    assert_eq!(d.focus(), 10);
    assert_eq!(d.monitor_count(), 1);
    assert_eq!(d.desktop_monitor(1), None);
    assert_eq!(d.desktop_monitor(0), Some(0));
}

#[test]
fn toggling_a_floating_window_twice_keeps_its_place() {
    let mut d = three_windows();
    run(&mut d, Event::ManageRequest { window: 20, x: 0, y: 0, width: 400, height: 300, dialog: true });
    let before = d.window(20).unwrap().geometry;
    run_commands(&mut d, vec![Command::ToggleFloating]);
    assert!(!d.window(20).unwrap().floating);
    assert_eq!(d.window(20).unwrap().geometry.w, 478);
    run_commands(&mut d, vec![Command::ToggleFloating]);
    assert!(d.window(20).unwrap().floating);
    assert_eq!(d.window(20).unwrap().geometry, before);
    assert_eq!(d.window(10).unwrap().geometry.w, 638);
}

#[test]
fn sink_identifiers_are_not_managed() {
    let mut d = Daily::new(PREVIEW);
    run(&mut d, output(1, 0, 1920, 200));
    let out = run(&mut d, manage(200));
    assert!(out.is_empty());
    assert_eq!(d.window_count(), 0);
}

#[test]
fn disabled_desktop_returns_with_the_next_output() {
    let mut d = three_windows();
    run(&mut d, Event::CrtcChange { crtc: 1, enabled: false, x: 0, y: 0, width: 0, height: 0, sink: 0 });
    assert_eq!(d.monitor_count(), 0);
    let out = run(&mut d, output(3, 0, 1280, 202));
    assert_eq!(d.desktop_monitor(0), Some(0));
    assert!(out.contains(&Action::MapWindow(10)));
    assert_eq!(d.focus(), 10);
    assert_eq!(d.window(10).unwrap().geometry.w, 1280 / 3 - 2);
}

#[test]
fn reconfigured_output_lays_out_again() {
    let mut d = three_windows();
    run(&mut d, Event::CrtcChange { crtc: 1, enabled: true, x: 0, y: 0, width: 1200, height: 900, sink: 0 });
    assert_eq!(d.monitor(0).unwrap().geometry, Rect { x: 0, y: 0, w: 1200, h: 900 });
    assert_eq!(d.window(12).unwrap().geometry, Rect { x: 800, y: 0, w: 398, h: 898 });
}

#[test]
fn drag_session_starts_and_ends() {
    let mut d = three_windows();
    let out = run(
        &mut d,
        Event::ButtonPress { root_x: 50, root_y: 500, clicked: Some(10), detail: 1, state: MASK_MOD4 },
    );
    assert_eq!(d.focus(), 10);
    assert_eq!(d.button_count(), 1);
    assert_eq!(d.dnd_position(), Some((50, 500)));
    assert_eq!(out.last(), Some(&Action::AllowEvents { sync: true }));

    run(&mut d, Event::MotionNotify { root_x: 10, root_y: 10, state: MASK_MOD4 | MASK_BUTTON1 });
    let w = d.window(10).unwrap();
    assert!(w.floating);
    assert_eq!((w.geometry.x, w.geometry.y), (-40, -490));
    assert_eq!(d.preview_geometry(), Rect { x: 0, y: 0, w: 958, h: 538 });
    assert_eq!(d.dnd_position(), Some((10, 10)));

    let out = run(&mut d, Event::ButtonRelease { root_x: 10, root_y: 10, detail: 1 });
    assert_eq!(d.button_count(), 0);
    assert_eq!(d.dnd_position(), None);
    assert_eq!(d.preview_geometry(), Rect::empty());
    assert_eq!(out.last(), Some(&Action::UnmapWindow(PREVIEW)));
    assert_eq!(d.window(10).unwrap().geometry, Rect { x: 0, y: 0, w: 958, h: 538 });
}

#[test]
fn press_without_hot_key_replays_the_pointer() {
    let mut d = three_windows();
    let out = run(&mut d, Event::ButtonPress { root_x: 50, root_y: 50, clicked: None, detail: 1, state: 0 });
    assert_eq!(d.button_count(), 0);
    assert_eq!(d.focus(), 200);
    assert_eq!(out.last(), Some(&Action::AllowEvents { sync: false }));
    let out = run(&mut d, Event::ButtonRelease { root_x: 50, root_y: 50, detail: 1 });
    assert_eq!(d.button_count(), 0);
    assert_eq!(out.last(), Some(&Action::UnmapWindow(PREVIEW)));
}

#[test]
fn motion_without_drag_changes_nothing() {
    let mut d = three_windows();
    let out = run(&mut d, Event::MotionNotify { root_x: 10, root_y: 10, state: MASK_BUTTON1 });
    assert!(out.is_empty());
    assert!(!d.window(12).unwrap().floating);
}

#[test]
fn key_press_queues_the_bound_command() {
    let mut d = three_windows();
    d.bind_key(&[Modifier::Super, Modifier::Shift], 24, Command::Exit);
    let mut q = Vec::new();
    let mut out = Vec::new();
    d.handle_event(Event::KeyPress { state: MASK_MOD4 | MASK_SHIFT, detail: 24 }, &mut q, &mut out);
    assert_eq!(q, vec![Command::Exit]);
    d.handle_event(Event::KeyPress { state: MASK_MOD4, detail: 24 }, &mut q, &mut out);
    assert_eq!(q.len(), 1);
    assert!(out.is_empty());
}

#[test]
fn later_binding_replaces_earlier() {
    let mut d = Daily::new(PREVIEW);
    d.bind_key(&[Modifier::Super], 28, Command::Exit);
    d.bind_key(&[Modifier::Super], 28, Command::Restart);
    assert_eq!(d.lookup(MASK_MOD4, 28), Some(Command::Restart));
    assert_eq!(d.lookup(MASK_MOD4, 29), None);
}

#[test]
fn exit_and_restart_end_the_loop() {
    let mut d = three_windows();
    let (r, _) = run_commands(&mut d, vec![Command::Exit, Command::ToggleFloating]);
    assert_eq!(r, Outcome::Interrupted { restart: false });
    assert!(!d.window(12).unwrap().floating);
    let (r, _) = run_commands(&mut d, vec![Command::ToggleFloating, Command::Restart]);
    assert_eq!(r, Outcome::Interrupted { restart: true });
    assert!(d.window(12).unwrap().floating);
    let (r, _) = run_commands(&mut d, vec![]);
    assert_eq!(r, Outcome::Continue);
}

#[test]
fn spawn_asks_for_the_command_line() {
    let mut d = three_windows();
    let (r, out) = run_commands(&mut d, vec![Command::SpawnProcess("xterm".to_string())]);
    assert_eq!(r, Outcome::Continue);
    assert_eq!(out, vec![Action::Spawn("xterm".to_string())]);
}

#[test]
fn output_change_queues_the_update_program() {
    let mut d = three_windows();
    let mut q = Vec::new();
    let mut out = Vec::new();
    d.handle_event(Event::OutputChange, &mut q, &mut out);
    assert_eq!(q, vec![Command::SpawnProcess("echo 'monitor changed'".to_string())]);
}

#[test]
fn focus_next_window_cycles() {
    let mut d = three_windows();
    run_commands(&mut d, vec![Command::FocusNextWindow]);
    assert_eq!(d.focus(), 10);
    run_commands(&mut d, vec![Command::FocusNextWindow]);
    assert_eq!(d.focus(), 11);
}

#[test]
fn focus_next_window_alone_stays() {
    let mut d = Daily::new(PREVIEW);
    run(&mut d, output(1, 0, 1920, 200));
    run(&mut d, manage(10));
    let (_, out) = run_commands(&mut d, vec![Command::FocusNextWindow]);
    assert_eq!(d.focus(), 10);
    assert!(out.is_empty());
}

#[test]
fn focus_next_monitor_cycles() {
    let mut d = three_windows();
    run(&mut d, output(2, 1920, 1280, 201));
    assert_eq!(d.focus(), 201);
    run_commands(&mut d, vec![Command::FocusNextMonitor]);
    assert_eq!(d.focus(), 10);
    run_commands(&mut d, vec![Command::FocusNextMonitor]);
    assert_eq!(d.focus(), 201);
}

#[test]
fn switch_to_a_hidden_desktop_and_back() {
    let mut d = three_windows();
    let (_, out) = run_commands(&mut d, vec![Command::SwitchDesktop(3)]);
    assert!(out.contains(&Action::UnmapWindow(10)));
    assert_eq!(d.desktop_monitor(3), Some(0));
    assert_eq!(d.desktop_monitor(0), None);
    assert_eq!(d.focus(), 200);
    let (_, out) = run_commands(&mut d, vec![Command::SwitchDesktop(0)]);
    assert!(out.contains(&Action::MapWindow(11)));
    assert_eq!(d.desktop_monitor(0), Some(0));
    assert_eq!(d.focus(), 10);
}

#[test]
fn switch_to_a_shown_desktop_swaps_monitors() {
    let mut d = three_windows();
    run(&mut d, output(2, 1920, 1280, 201));
    run_commands(&mut d, vec![Command::FocusNextMonitor]);
    assert_eq!(d.focus(), 10);
    run_commands(&mut d, vec![Command::SwitchDesktop(1)]);
    assert_eq!(d.desktop_monitor(1), Some(0));
    assert_eq!(d.desktop_monitor(0), Some(1));
    assert_eq!(d.monitor(1).unwrap().desktop, 0);
    assert_eq!(d.focus(), 200);
    assert_eq!(d.window(10).unwrap().geometry.w, 1280 / 3 - 2);
}

#[test]
fn move_window_to_a_hidden_desktop() {
    let mut d = three_windows();
    let (_, out) = run_commands(&mut d, vec![Command::MoveWindow(2)]);
    let w = d.window(12).unwrap();
    assert_eq!(w.desktop, 2);
    assert!(w.ignore_unmap_notify);
    assert!(out.contains(&Action::UnmapWindow(12)));
    assert_eq!(d.focus(), 10);
    assert_eq!(d.window(11).unwrap().geometry.w, 958);
}

#[test]
fn fullscreen_request_covers_the_monitor() {
    let mut d = three_windows();
    let out = run(&mut d, Event::FullscreenRequest { window: 10, action: 1 });
    assert!(d.window(10).unwrap().fullscreen);
    assert!(out.contains(&Action::SetFullscreenState { window: 10, fullscreen: true }));
    assert!(out.contains(&Action::Configure {
        window: 10,
        geometry: Some(Rect { x: 0, y: 0, w: 1920, h: 1080 }),
        border_width: Some(0),
        stack: Some(daily::model::Stack::Above),
    }));
    assert_eq!(d.window(11).unwrap().geometry.w, 958);
    run(&mut d, Event::FullscreenRequest { window: 10, action: 0 });
    assert!(!d.window(10).unwrap().fullscreen);
    let out = run(&mut d, Event::FullscreenRequest { window: 10, action: 2 });
    assert!(out.is_empty());
}

#[test]
fn configure_request_of_unmanaged_or_floating_window() {
    let mut d = three_windows();
    let out = run(&mut d, Event::ConfigureRequest { window: 99, x: 1, y: 2, width: 3, height: 4 });
    assert_eq!(out, vec![Action::PassConfigure(99)]);
    let out = run(&mut d, Event::ConfigureRequest { window: 10, x: 1, y: 2, width: 3, height: 4 });
    assert!(out.is_empty());
    run_commands(&mut d, vec![Command::FocusNextWindow, Command::ToggleFloating]);
    let out = run(&mut d, Event::ConfigureRequest { window: 10, x: 5, y: 6, width: 70, height: 80 });
    assert_eq!(out, vec![Action::PassConfigure(10)]);
    assert_eq!(d.window(10).unwrap().geometry, Rect { x: 5, y: 6, w: 70, h: 80 });
}

#[test]
fn map_request_shows_a_hidden_window() {
    let mut d = three_windows();
    run(&mut d, Event::UnmapNotify { window: 11 });
    let out = run(&mut d, Event::MapRequest { window: 11 });
    assert!(d.window(11).unwrap().mapped);
    assert_eq!(d.focus(), 11);
    assert!(out.contains(&Action::MapWindow(11)));
}

#[test]
fn manage_without_monitor_only_maps() {
    let mut d = Daily::new(PREVIEW);
    let out = run(&mut d, manage(10));
    assert_eq!(out, vec![Action::MapWindow(10)]);
    assert_eq!(d.window_count(), 0);
}

#[test]
fn click_focus_changes_borders() {
    let mut d = three_windows();
    let out = run(&mut d, Event::ButtonPress { root_x: 5, root_y: 5, clicked: Some(10), detail: 1, state: 0 });
    assert_eq!(d.focus(), 10);
    assert_eq!(out[0], Action::SetBorderColor { window: 12, pixel: 0x000000 });
    assert_eq!(out[1], Action::SetBorderColor { window: 10, pixel: 0x00FF00 });
    assert_eq!(out[2], Action::SetInputFocus(10));
}

#[test]
fn focus_first_monitor_picks_its_sink() {
    let mut d = three_windows();
    let mut out = Vec::new();
    d.focus_first_monitor(&mut out);
    assert_eq!(d.focus(), 200);
}

#[test]
fn saturating_add_holds_to_i32() {
    assert_eq!(daily::daily::sat_add(i32::MAX, 5), i32::MAX);
    assert_eq!(daily::daily::sat_add(i32::MIN, -5), i32::MIN);
    assert_eq!(daily::daily::sat_add(7, -10), -3);
}

#[test]
fn dragging_across_monitors_changes_desktop() {
    let mut d = three_windows();
    run(&mut d, output(2, 1920, 1280, 201));
    run(&mut d, Event::ButtonPress { root_x: 50, root_y: 500, clicked: Some(10), detail: 1, state: MASK_MOD4 });
    let out = run(&mut d, Event::MotionNotify { root_x: 2000, root_y: 500, state: MASK_MOD4 | MASK_BUTTON1 });
    let w = d.window(10).unwrap();
    assert!(w.floating);
    assert_eq!(w.desktop, 1);
    assert_eq!((w.geometry.x, w.geometry.y), (30, 0));
    assert!(out.contains(&Action::Configure {
        window: 10,
        geometry: Some(Rect { x: 1950, y: 0, w: 638, h: 1078 }),
        border_width: None,
        stack: Some(daily::model::Stack::Below(PREVIEW)),
    }));
    assert_eq!(out.last(), Some(&Action::UnmapWindow(PREVIEW)));
    assert_eq!(d.preview_geometry(), Rect::empty());
    // the windows left behind share monitor 0
    assert_eq!(d.window(11).unwrap().geometry.w, 958);
}

#[test]
fn secondary_release_does_not_snap() {
    let mut d = three_windows();
    run(&mut d, Event::ButtonPress { root_x: 50, root_y: 500, clicked: Some(10), detail: 3, state: MASK_MOD4 });
    run(&mut d, Event::MotionNotify { root_x: 60, root_y: 520, state: MASK_MOD4 | daily::command::MASK_BUTTON3 });
    let w = d.window(10).unwrap();
    assert_eq!((w.geometry.w, w.geometry.h), (648, 1098));
    run(&mut d, Event::ButtonRelease { root_x: 10, root_y: 10, detail: 3 });
    assert_eq!(d.window(10).unwrap().geometry, Rect { x: 0, y: 0, w: 648, h: 1098 });
    assert_eq!(d.button_count(), 0);
}
