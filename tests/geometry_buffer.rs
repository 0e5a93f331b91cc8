use twodr::geometry::{ColoredDrawRects, ColoredTriangleVertex, FontDrawRects, Frac, START_BUF_SIZE};

fn vertex(n: i32) -> ColoredTriangleVertex {
    ColoredTriangleVertex {
        position: [Frac { num: n, den: 1 }, Frac { num: -n, den: 1 }],
        color: [n as u8, 0, 0, 255],
    }
}

fn quad(base: i32) -> [ColoredTriangleVertex; 4] {
    [vertex(base), vertex(base + 1), vertex(base + 2), vertex(base + 3)]
}

#[test]
fn new_buffers_start_empty_with_default_allocation() {
    let b = ColoredDrawRects::new();
    assert_eq!(b.cpu_buffer.len(), 0);
    assert_eq!(b.index_buffer.len(), 0);
    assert_eq!(b.vertex_buffer_sz, START_BUF_SIZE);
    assert_eq!(b.stride, 12);
    let f = FontDrawRects::new();
    assert_eq!(f.stride, 16);
}

#[test]
fn extend_appends_four_vertices_and_six_indices() {
    let mut b = ColoredDrawRects::new();
    b.extend(quad(0));
    b.extend(quad(10));
    assert_eq!(b.cpu_buffer.len(), 8);
    assert_eq!(b.index_buffer, vec![2, 1, 0, 2, 3, 1, 6, 5, 4, 6, 7, 5]);
}

#[test]
fn n_quads_between_clears_give_4n_vertices_and_6n_indices() {
    let mut b = ColoredDrawRects::new();
    b.extend(quad(100));
    b.finish();
    let n = 37;
    for i in 0..n {
        b.extend(quad(i * 4));
    }
    assert_eq!(b.cpu_buffer.len(), 4 * n as usize);
    assert_eq!(b.index_buffer.len(), 6 * n as usize);
    assert!(b.index_buffer.iter().all(|&i| i < 4 * n as u32));
    assert_eq!(b.index_count(), 6 * n as u32);
}

#[test]
fn flush_grows_to_twice_the_required_size() {
    let mut b = ColoredDrawRects::new();
    // 3000 bytes hold 83 quads of 4 * 12 + 6 * 4 = 72 bytes; 100 do not.
    for i in 0..100 {
        b.extend(quad(i * 4));
    }
    let required = 100 * 72;
    assert_eq!(b.required_size(), required);
    assert_eq!(b.confirm_extends(), Some(2 * required));
    assert_eq!(b.vertex_buffer_sz, 2 * required);
    assert_eq!(b.get_vertex_buf(), (0, 100 * 48));
    assert_eq!(b.get_index_buffer(), (100 * 48, required));
    for i in 0..400 {
        assert_eq!(b.cpu_buffer[i as usize].position[0].num, i);
    }
}

#[test]
fn flush_within_capacity_keeps_the_allocation() {
    let mut b = ColoredDrawRects::new();
    b.extend(quad(0));
    assert_eq!(b.confirm_extends(), None);
    assert_eq!(b.vertex_buffer_sz, START_BUF_SIZE);
    assert!(!b.index_buffer_dirty);
    b.extend(quad(4));
    assert!(b.index_buffer_dirty);
}

#[test]
fn capacity_never_shrinks_after_clear() {
    let mut b = ColoredDrawRects::new();
    for i in 0..100 {
        b.extend(quad(i * 4));
    }
    b.confirm_extends();
    let grown = b.vertex_buffer_sz;
    b.finish();
    assert_eq!(b.confirm_extends(), None);
    assert_eq!(b.vertex_buffer_sz, grown);
}

#[test]
fn clear_then_flush_draws_nothing() {
    let mut b = ColoredDrawRects::new();
    b.extend(quad(0));
    b.confirm_extends();
    b.finish();
    assert_eq!(b.confirm_extends(), None);
    assert_eq!(b.index_count(), 0);
    assert_eq!(b.get_vertex_buf(), (0, 0));
    assert_eq!(b.get_index_buffer(), (0, 0));
}
