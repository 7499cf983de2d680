use daily::geometry::Rect;
use daily::layout::tile;

#[test]
fn three_windows_on_1920() {
    assert_eq!(tile(1920, 1080, 3, 0), Rect { x: 0, y: 0, w: 638, h: 1078 });
    assert_eq!(tile(1920, 1080, 3, 1), Rect { x: 640, y: 0, w: 638, h: 1078 });
    assert_eq!(tile(1920, 1080, 3, 2), Rect { x: 1280, y: 0, w: 638, h: 1078 });
}

#[test]
fn four_windows_on_1920() {
    for k in 0..4 {
        let r = tile(1920, 1080, 4, k);
        assert_eq!(r.w, 478);
        assert_eq!(r.x, 480 * k as i32);
    }
}

#[test]
fn last_window_takes_the_remainder() {
    assert_eq!(tile(1000, 500, 3, 0).w, 331);
    assert_eq!(tile(1000, 500, 3, 1).x, 333);
    assert_eq!(tile(1000, 500, 3, 2), Rect { x: 666, y: 0, w: 332, h: 498 });
}

#[test]
fn columns_cover_the_width_without_overlap() {
    for n in 1..9usize {
        let mut next = 0;
        for k in 0..n {
            let r = tile(1366, 768, n, k);
            assert_eq!(r.x, next);
            next = r.x + r.w + 2;
        }
        assert_eq!(next, 1366);
    }
}

#[test]
fn single_window_fills_the_monitor() {
    assert_eq!(tile(1920, 1080, 1, 0), Rect { x: 0, y: 0, w: 1918, h: 1078 });
}
