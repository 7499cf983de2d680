use daily::geometry::{snap, Rect};

fn screen() -> Rect {
    Rect { x: 0, y: 0, w: 1920, h: 1080 }
}

#[test]
fn rect_edges() {
    let r = Rect { x: 10, y: 20, w: 30, h: 40 };
    assert_eq!(r.left(), 10);
    assert_eq!(r.right(), 40);
    assert_eq!(r.top(), 20);
    assert_eq!(r.bottom(), 60);
}

#[test]
fn rect_contains_is_half_open() {
    let r = Rect { x: 10, y: 20, w: 30, h: 40 };
    assert!(r.contains(10, 20));
    assert!(r.contains(39, 59));
    assert!(!r.contains(40, 30));
    assert!(!r.contains(20, 60));
    assert!(!r.contains(9, 30));
}

#[test]
fn rect_contains_near_integer_limits() {
    let r = Rect { x: i32::MAX - 1, y: 0, w: 10, h: 10 };
    assert!(r.contains(i32::MAX, 5));
    assert!(!Rect::empty().contains(0, 0));
}

#[test]
fn snap_top_left_corner_is_a_quarter() {
    assert_eq!(snap(screen(), 10, 10), Some(Rect { x: 0, y: 0, w: 958, h: 538 }));
}

#[test]
fn snap_bottom_right_corner_is_a_quarter() {
    assert_eq!(snap(screen(), 1900, 1070), Some(Rect { x: 960, y: 540, w: 958, h: 538 }));
}

#[test]
fn snap_left_edge_is_a_half() {
    assert_eq!(snap(screen(), 10, 500), Some(Rect { x: 0, y: 0, w: 958, h: 1078 }));
}

#[test]
fn snap_top_edge_is_a_half() {
    assert_eq!(snap(screen(), 960, 30), Some(Rect { x: 0, y: 0, w: 1918, h: 538 }));
}

#[test]
fn snap_center_is_the_whole_monitor() {
    assert_eq!(snap(screen(), 960, 540), Some(Rect { x: 0, y: 0, w: 1918, h: 1078 }));
}

#[test]
fn snap_elsewhere_is_none() {
    assert_eq!(snap(screen(), 500, 300), None);
}

#[test]
fn snap_corner_wins_over_every_edge() {
    // each of these points is near a vertical and a horizontal edge at once
    let mg = Rect { x: 100, y: 50, w: 800, h: 600 };
    assert_eq!(snap(mg, 100, 50), Some(Rect { x: 100, y: 50, w: 398, h: 298 }));
    assert_eq!(snap(mg, 163, 649), Some(Rect { x: 100, y: 350, w: 398, h: 298 }));
    assert_eq!(snap(mg, 899, 113), Some(Rect { x: 500, y: 50, w: 398, h: 298 }));
    assert_eq!(snap(mg, 836, 586), Some(Rect { x: 500, y: 350, w: 398, h: 298 }));
}

#[test]
fn snap_on_an_offset_monitor() {
    let mg = Rect { x: 1920, y: 0, w: 1280, h: 1024 };
    assert_eq!(snap(mg, 3199, 500), Some(Rect { x: 2560, y: 0, w: 638, h: 1022 }));
}
