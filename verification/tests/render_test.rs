use svg_render::render::{scale_size, ScreenSize};

#[test]
fn scale_size_test() {
    assert_eq!(
        scale_size(ScreenSize::new(10, 10).unwrap(), 2),
        ScreenSize::new(20, 20).unwrap()
    );
    assert_eq!(
        scale_size(ScreenSize::new(25, 40).unwrap(), 3),
        ScreenSize::new(75, 120).unwrap()
    );
}

#[test]
fn zero_sized_pixmaps_are_rejected() {
    assert!(ScreenSize::new(0, 5).is_none());
    assert!(ScreenSize::new(5, 0).is_none());
    let s = ScreenSize::new(5, 6).unwrap();
    assert_eq!(s.width(), 5);
    assert_eq!(s.height(), 6);
}
