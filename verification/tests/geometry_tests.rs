use batch_acceptance_app::geometry::{band_strips, clip_box, interior_band, outer_box, Rect};

fn r(x0: u32, y0: u32, x1: u32, y1: u32) -> Rect {
    Rect { x0, y0, x1, y1 }
}

#[test]
fn rect_emptiness_and_membership() {
    assert!(r(0, 0, 0, 5).is_empty());
    assert!(r(3, 0, 2, 5).is_empty());
    assert!(!r(0, 0, 1, 1).is_empty());
    assert!(r(1, 1, 3, 3).contains(1, 2));
    assert!(!r(1, 1, 3, 3).contains(3, 2));
}

#[test]
fn clipping() {
    assert_eq!(clip_box(-5, 10, 20, 30, 640, 640), r(0, 10, 15, 40));
    assert_eq!(clip_box(630, 630, 50, 50, 640, 640), r(630, 630, 640, 640));
    assert!(clip_box(700, 10, 5, 5, 640, 640).is_empty());
    assert!(clip_box(-20, -20, 5, 5, 640, 640).is_empty());
}

#[test]
fn band_width() {
    assert_eq!(interior_band(r(0, 0, 100, 100)), 2);
    assert_eq!(interior_band(r(0, 0, 3, 100)), 1);
    assert_eq!(interior_band(r(0, 0, 1, 1)), 1);
    assert_eq!(interior_band(r(0, 0, 4, 4)), 2);
}

#[test]
fn outer_ring_box() {
    assert_eq!(outer_box(r(10, 10, 20, 20), 6, 640, 640), r(4, 4, 26, 26));
    assert_eq!(outer_box(r(2, 3, 638, 639), 6, 640, 640), r(0, 0, 640, 640));
}

#[test]
fn band_strips_count_each_pixel_once() {
    let b = r(10, 20, 30, 26);
    let s = band_strips(b, 2);
    for y in 0..40 {
        for x in 0..40 {
            let n = [s.top, s.bottom, s.left, s.right]
                .iter()
                .filter(|q| q.contains(x, y))
                .count();
            let in_band = b.contains(x, y)
                && (y < b.y0 + 2 || y + 2 >= b.y1 || x < b.x0 + 2 || x + 2 >= b.x1);
            assert_eq!(n, if in_band { 1 } else { 0 }, "({}, {})", x, y);
        }
    }
}
