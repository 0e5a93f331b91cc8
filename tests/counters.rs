use twodr::fps_counter::{default_counter, FpsReport};
use twodr::gpu_device::UnsafeGuaranteeLocal;

#[test]
fn counter_reports_every_hundred_frames() {
    let mut c = default_counter(1000);
    assert_eq!(c.report(1500), Some(FpsReport { frames: 0, elapsed_micros: 500 }));
    assert_eq!(c.count, 0);
    assert_eq!(c.time, 1500);
    for _ in 0..99 {
        c.frame();
    }
    assert_eq!(c.report(2000), None);
    c.frame();
    assert_eq!(c.report(3500), Some(FpsReport { frames: 100, elapsed_micros: 2000 }));
    assert_eq!(c.count, 100);
}

#[test]
fn counter_resets_every_hundred_eighty_frames() {
    let mut c = default_counter(0);
    for _ in 0..180 {
        c.frame();
    }
    assert_eq!(c.report(9000), None);
    assert_eq!(c.count, 0);
    assert_eq!(c.time, 9000);
}

#[test]
fn context_cell_lends_its_value() {
    let mut cell = UnsafeGuaranteeLocal::new(5);
    *cell.get_mut() += 1;
    assert_eq!(*cell.get(), 6);
    assert_eq!(cell.into_inner(), 6);
}
