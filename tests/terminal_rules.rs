use twodr::rects::RectObject;
use twodr::terminal::{baseline_offset, blink_step, cursor_update, scroll_target, COLORONE, COLORTWO};
use twodr::text::TextInfo;

#[test]
fn cursor_moves_to_the_end_of_the_text() {
    let mut rect = RectObject { x: 0, y: 0, w: 10, h: 16, color: [100, 100, 100, 255] };
    let info = TextInfo { min: (640, 24960), max: (1280, 23936) };
    cursor_update(&mut rect, &info, 200);
    assert_eq!((rect.x, rect.y, rect.w, rect.h), (20, 374, 10, 16));
    assert_eq!(rect.color, COLORONE);
    cursor_update(&mut rect, &info, 127);
    assert_eq!(rect.color, COLORTWO);
}

#[test]
fn blink_phase_wraps() {
    assert_eq!(blink_step(0), 5);
    assert_eq!(blink_step(250), 255);
    assert_eq!(blink_step(251), 0);
    assert_eq!(blink_step(255), 4);
}

#[test]
fn text_below_the_line_is_brought_back() {
    assert_eq!(baseline_offset(-1024, 1024), Some((0, 32)));
    assert_eq!(baseline_offset(1024, 1024), None);
    assert_eq!(baseline_offset(5000, 1024), None);
}

#[test]
fn scroll_goes_to_the_window_under_the_mouse() {
    assert_eq!(scroll_target(0), 0);
    assert_eq!(scroll_target(399), 0);
    assert_eq!(scroll_target(400), 1);
}
