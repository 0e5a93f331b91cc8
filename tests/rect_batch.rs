use twodr::geometry::{ColoredDrawRects, Frac};
use twodr::rects::{upload_rects, RectObject, RectanglePoint, HEIGHT, WIDTH};

#[test]
fn one_rect_gives_one_quad_scaled_by_the_viewport() {
    assert_eq!((WIDTH, HEIGHT), (800, 400));
    let mut b = ColoredDrawRects::new();
    let r = RectObject { x: 10, y: 10, w: 20, h: 20, color: [255, 0, 0, 255] };
    upload_rects(&mut b, &vec![r]);
    assert_eq!(b.cpu_buffer.len(), 4);
    assert_eq!(b.index_buffer.len(), 6);
    let xs: Vec<Frac> = b.cpu_buffer.iter().map(|v| v.position[0]).collect();
    let ys: Vec<Frac> = b.cpu_buffer.iter().map(|v| v.position[1]).collect();
    assert_eq!(xs, vec![
        Frac { num: 10, den: 800 },
        Frac { num: 30, den: 800 },
        Frac { num: 10, den: 800 },
        Frac { num: 30, den: 800 },
    ]);
    assert_eq!(ys, vec![
        Frac { num: 10, den: 400 },
        Frac { num: 10, den: 400 },
        Frac { num: 30, den: 400 },
        Frac { num: 30, den: 400 },
    ]);
    assert!(b.cpu_buffer.iter().all(|v| v.color == [255, 0, 0, 255]));
}

#[test]
fn zero_sized_rect_gives_a_degenerate_quad() {
    let mut b = ColoredDrawRects::new();
    let r = RectObject { x: 5, y: 6, w: 0, h: 0, color: [1, 2, 3, 4] };
    upload_rects(&mut b, &vec![r]);
    assert_eq!(b.cpu_buffer.len(), 4);
    assert!(b.cpu_buffer.iter().all(|v| v.position[0] == Frac { num: 5, den: 800 }));
}

#[test]
fn rects_are_batched_in_order() {
    let mut b = ColoredDrawRects::new();
    let a = RectObject { x: 0, y: 0, w: 1, h: 1, color: [1, 1, 1, 1] };
    let c = RectObject { x: 100, y: 0, w: 1, h: 1, color: [2, 2, 2, 2] };
    upload_rects(&mut b, &vec![a, c]);
    assert_eq!(b.cpu_buffer.len(), 8);
    assert_eq!(b.cpu_buffer[4].color, [2, 2, 2, 2]);
    assert_eq!(b.index_buffer[6..], [6, 5, 4, 6, 7, 5]);
}

#[test]
fn rectangle_point_division_and_array() {
    let p = RectanglePoint { x: 1, y: 2, x1: 3, y1: 4 };
    let q = p.div_by(10, 20);
    assert_eq!(q.x1, Frac { num: 3, den: 10 });
    assert_eq!(q.y1, Frac { num: 4, den: 20 });
    assert_eq!(p.as_array(), [1, 2, 3, 4]);
}
